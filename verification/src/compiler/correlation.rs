//! Compiler invocations held against what Cargo planned and built.

use vstd::prelude::*;

use crate::collections::{
    any_item, any_where, append_items, ascending, collect_items, collect_set, collected,
    count_items, count_where, counts, equal_to, find_first, find_last, first_where, flattened, image, last_place, lemma_count_bound,
    lemma_ascending_exists, lemma_collected_step, lemma_count_step,
    lemma_image_ends, lemma_image_step, lemma_prefix_set,
    no_items, occurrences, push_item, second, sorted_unique, stable_sort, stable_sorted, tally,
    take_second, SortedMap, SortedSet,
};
use crate::compiler::cargo::{
    artifact_role, CargoArtifact, CargoArtifactView, CargoFailure, CargoFailureView, CargoProfile,
    CargoProfileView, CargoRun, CargoRunView,
};
use crate::compiler::graph::{
    canonical, canonical_form, canonical_key, canonical_place, CanonicalPathView, Locations,
    LocationsView,
};
use crate::compiler::inventory::{
    selected_ids, AuditInventory, AuditPackage, AuditPackageView, PackageTargetInfo,
    PackageTargetInfoView,
};
use crate::compiler::profile::{CompilerProfile, ExpectedUnit, ExpectedUnitView};
use crate::compiler::sidecar::{Invocation, InvocationView};
use crate::model::{CompilerTargetReport, CompilerTargetReportView};
use crate::order::{Ordered, Rank};
use crate::paths::{
    copy_key, file_stem, parent, parent_of, path_from, resolve, same_key, stem_of, PathKey,
};
use crate::protocol::{CompilationContext, InvocationStarted, InvocationStartedView};
use crate::text::{
    copy_list, decimal, decimal_text, join, joined, list_contains, no_text, same, same_list,
    same_optional, strip_prefix, without_prefix,
};

verus! {

/// What tells one unit from another.
#[derive(Debug, PartialEq, Eq)]
pub struct UnitKey {
    pub package_id: String,
    pub name: String,
    pub source: PathKey,
    pub kinds: Vec<String>,
    pub crate_types: Vec<String>,
    pub features: Vec<String>,
    pub platform: Option<String>,
}

/// The model of [`UnitKey`].
#[verifier::ext_equal]
pub struct UnitKeyView {
    pub package_id: Seq<char>,
    pub name: Seq<char>,
    pub source: Seq<(usize, Seq<char>)>,
    pub kinds: Seq<Seq<char>>,
    pub crate_types: Seq<Seq<char>>,
    pub features: Seq<Seq<char>>,
    pub platform: Option<Seq<char>>,
}

impl DeepView for UnitKey {
    type V = UnitKeyView;

    open spec fn deep_view(&self) -> UnitKeyView {
        UnitKeyView {
            package_id: self.package_id.deep_view(),
            name: self.name.deep_view(),
            source: self.source.deep_view(),
            kinds: self.kinds.deep_view(),
            crate_types: self.crate_types.deep_view(),
            features: self.features.deep_view(),
            platform: self.platform.deep_view(),
        }
    }
}

impl Clone for UnitKey {
    fn clone(&self) -> (copy: Self)
        ensures
            copy.deep_view() == self.deep_view(),
    {
        let copy = UnitKey {
            package_id: self.package_id.clone(),
            name: self.name.clone(),
            source: copy_key(&self.source),
            kinds: self.kinds.clone(),
            crate_types: self.crate_types.clone(),
            features: self.features.clone(),
            platform: self.platform.clone(),
        };
        proof {
            assert(copy.kinds.deep_view() =~= self.kinds.deep_view());
            assert(copy.crate_types.deep_view() =~= self.crate_types.deep_view());
            assert(copy.features.deep_view() =~= self.features.deep_view());
            assert(copy.platform.deep_view() =~= self.platform.deep_view());
        }
        copy
    }
}

/// Ordered field by field.
impl Ordered for UnitKey {
    open spec fn precedes(a: UnitKeyView, b: UnitKeyView) -> bool {
        <(String, (String, (PathKey, (Vec<String>, (Vec<String>, (Vec<String>, Option<String>)))))) as Ordered>::precedes(
            (a.package_id, (a.name, (a.source, (a.kinds, (a.crate_types, (a.features, a.platform)))))),
            (b.package_id, (b.name, (b.source, (b.kinds, (b.crate_types, (b.features, b.platform)))))),
        )
    }

    proof fn irreflexive(a: UnitKeyView) {
        <(String, (String, (PathKey, (Vec<String>, (Vec<String>, (Vec<String>, Option<String>)))))) as Ordered>::irreflexive((a.package_id, (a.name, (a.source, (a.kinds, (a.crate_types, (a.features, a.platform)))))));
    }

    proof fn transitive(a: UnitKeyView, b: UnitKeyView, c: UnitKeyView) {
        <(String, (String, (PathKey, (Vec<String>, (Vec<String>, (Vec<String>, Option<String>)))))) as Ordered>::transitive(
            (a.package_id, (a.name, (a.source, (a.kinds, (a.crate_types, (a.features, a.platform)))))),
            (b.package_id, (b.name, (b.source, (b.kinds, (b.crate_types, (b.features, b.platform)))))),
            (c.package_id, (c.name, (c.source, (c.kinds, (c.crate_types, (c.features, c.platform)))))),
        );
    }

    proof fn total(a: UnitKeyView, b: UnitKeyView) {
        <(String, (String, (PathKey, (Vec<String>, (Vec<String>, (Vec<String>, Option<String>)))))) as Ordered>::total((a.package_id, (a.name, (a.source, (a.kinds, (a.crate_types, (a.features, a.platform)))))), (b.package_id, (b.name, (b.source, (b.kinds, (b.crate_types, (b.features, b.platform)))))));
    }

    fn rank(&self, other: &Self) -> (rank: Rank) {
        match self.package_id.rank(&other.package_id) {
            Rank::Equal => {
                match self.name.rank(&other.name) {
                    Rank::Equal => {
                        match self.source.rank(&other.source) {
                            Rank::Equal => {
                                match self.kinds.rank(&other.kinds) {
                                    Rank::Equal => {
                                        match self.crate_types.rank(&other.crate_types) {
                                            Rank::Equal => {
                                                match self.features.rank(&other.features) {
                                                    Rank::Equal => {
                                                        self.platform.rank(&other.platform)
                                                    },
                                                    decided => decided,
                                                }
                                            },
                                            decided => decided,
                                        }
                                    },
                                    decided => decided,
                                }
                            },
                            decided => decided,
                        }
                    },
                    decided => decided,
                }
            },
            decided => decided,
        }
    }
}

/// What tells one target from another.
#[derive(Debug, PartialEq, Eq)]
pub struct TargetKey {
    pub package_id: String,
    pub name: String,
    pub source: PathKey,
    pub kinds: Vec<String>,
    pub crate_types: Vec<String>,
    pub role: String,
    pub compilation_context: String,
}

/// The model of [`TargetKey`].
#[verifier::ext_equal]
pub struct TargetKeyView {
    pub package_id: Seq<char>,
    pub name: Seq<char>,
    pub source: Seq<(usize, Seq<char>)>,
    pub kinds: Seq<Seq<char>>,
    pub crate_types: Seq<Seq<char>>,
    pub role: Seq<char>,
    pub compilation_context: Seq<char>,
}

impl DeepView for TargetKey {
    type V = TargetKeyView;

    open spec fn deep_view(&self) -> TargetKeyView {
        TargetKeyView {
            package_id: self.package_id.deep_view(),
            name: self.name.deep_view(),
            source: self.source.deep_view(),
            kinds: self.kinds.deep_view(),
            crate_types: self.crate_types.deep_view(),
            role: self.role.deep_view(),
            compilation_context: self.compilation_context.deep_view(),
        }
    }
}

impl Clone for TargetKey {
    fn clone(&self) -> (copy: Self)
        ensures
            copy.deep_view() == self.deep_view(),
    {
        let copy = TargetKey {
            package_id: self.package_id.clone(),
            name: self.name.clone(),
            source: copy_key(&self.source),
            kinds: self.kinds.clone(),
            crate_types: self.crate_types.clone(),
            role: self.role.clone(),
            compilation_context: self.compilation_context.clone(),
        };
        proof {
            assert(copy.kinds.deep_view() =~= self.kinds.deep_view());
            assert(copy.crate_types.deep_view() =~= self.crate_types.deep_view());
        }
        copy
    }
}

/// Ordered field by field.
impl Ordered for TargetKey {
    open spec fn precedes(a: TargetKeyView, b: TargetKeyView) -> bool {
        <(String, (String, (PathKey, (Vec<String>, (Vec<String>, (String, String)))))) as Ordered>::precedes(
            (a.package_id, (a.name, (a.source, (a.kinds, (a.crate_types, (a.role, a.compilation_context)))))),
            (b.package_id, (b.name, (b.source, (b.kinds, (b.crate_types, (b.role, b.compilation_context)))))),
        )
    }

    proof fn irreflexive(a: TargetKeyView) {
        <(String, (String, (PathKey, (Vec<String>, (Vec<String>, (String, String)))))) as Ordered>::irreflexive((a.package_id, (a.name, (a.source, (a.kinds, (a.crate_types, (a.role, a.compilation_context)))))));
    }

    proof fn transitive(a: TargetKeyView, b: TargetKeyView, c: TargetKeyView) {
        <(String, (String, (PathKey, (Vec<String>, (Vec<String>, (String, String)))))) as Ordered>::transitive(
            (a.package_id, (a.name, (a.source, (a.kinds, (a.crate_types, (a.role, a.compilation_context)))))),
            (b.package_id, (b.name, (b.source, (b.kinds, (b.crate_types, (b.role, b.compilation_context)))))),
            (c.package_id, (c.name, (c.source, (c.kinds, (c.crate_types, (c.role, c.compilation_context)))))),
        );
    }

    proof fn total(a: TargetKeyView, b: TargetKeyView) {
        <(String, (String, (PathKey, (Vec<String>, (Vec<String>, (String, String)))))) as Ordered>::total((a.package_id, (a.name, (a.source, (a.kinds, (a.crate_types, (a.role, a.compilation_context)))))), (b.package_id, (b.name, (b.source, (b.kinds, (b.crate_types, (b.role, b.compilation_context)))))));
    }

    fn rank(&self, other: &Self) -> (rank: Rank) {
        match self.package_id.rank(&other.package_id) {
            Rank::Equal => {
                match self.name.rank(&other.name) {
                    Rank::Equal => {
                        match self.source.rank(&other.source) {
                            Rank::Equal => {
                                match self.kinds.rank(&other.kinds) {
                                    Rank::Equal => {
                                        match self.crate_types.rank(&other.crate_types) {
                                            Rank::Equal => {
                                                match self.role.rank(&other.role) {
                                                    Rank::Equal => {
                                                        self.compilation_context.rank(&other.compilation_context)
                                                    },
                                                    decided => decided,
                                                }
                                            },
                                            decided => decided,
                                        }
                                    },
                                    decided => decided,
                                }
                            },
                            decided => decided,
                        }
                    },
                    decided => decided,
                }
            },
            decided => decided,
        }
    }
}

/// An invocation with the Cargo target that it compiled.
#[derive(Debug, PartialEq, Eq)]
pub struct CorrelatedInvocation {
    pub invocation: Invocation,
    pub target: Option<CompilerTargetReport>,
    pub cargo_features: Option<Vec<String>>,
    pub cargo_profile: Option<CargoProfile>,
    pub issue: Option<String>,
}

/// The model of [`CorrelatedInvocation`].
#[verifier::ext_equal]
pub struct CorrelatedInvocationView {
    pub invocation: InvocationView,
    pub target: Option<CompilerTargetReportView>,
    pub cargo_features: Option<Seq<Seq<char>>>,
    pub cargo_profile: Option<CargoProfileView>,
    pub issue: Option<Seq<char>>,
}

impl DeepView for CorrelatedInvocation {
    type V = CorrelatedInvocationView;

    open spec fn deep_view(&self) -> CorrelatedInvocationView {
        CorrelatedInvocationView {
            invocation: self.invocation.deep_view(),
            target: self.target.deep_view(),
            cargo_features: self.cargo_features.deep_view(),
            cargo_profile: self.cargo_profile.deep_view(),
            issue: self.issue.deep_view(),
        }
    }
}

/// The invocations of a run held against what Cargo planned and built.
#[derive(Debug, PartialEq, Eq)]
pub struct Correlation {
    pub expected: usize,
    pub correlated: usize,
    pub invocations: Vec<CorrelatedInvocation>,
    pub errors: Vec<String>,
    pub missing_invoked_sidecars: usize,
}

/// The model of [`Correlation`].
#[verifier::ext_equal]
pub struct CorrelationView {
    pub expected: usize,
    pub correlated: usize,
    pub invocations: Seq<CorrelatedInvocationView>,
    pub errors: Seq<Seq<char>>,
    pub missing_invoked_sidecars: usize,
}

impl DeepView for Correlation {
    type V = CorrelationView;

    open spec fn deep_view(&self) -> CorrelationView {
        CorrelationView {
            expected: self.expected,
            correlated: self.correlated,
            invocations: self.invocations.deep_view(),
            errors: self.errors.deep_view(),
            missing_invoked_sidecars: self.missing_invoked_sidecars,
        }
    }
}

/// Texts in ascending order, each once.
pub open spec fn sorted_texts(values: Seq<Seq<char>>) -> Seq<Seq<char>> {
    ascending::<String>(values.to_set())
}

/// Puts texts in ascending order, each once.
pub fn sorted(values: &Vec<String>) -> (list: Vec<String>)
    ensures
        list.deep_view() == sorted_texts(values.deep_view()),
{
    sorted_unique(copy_list(values))
}

/// Adds an issue to those found before.
pub open spec fn with_issue(current: Option<Seq<char>>, issue: Seq<char>) -> Option<Seq<char>> {
    match current {
        Some(current) => Some(current + "; "@ + issue),
        None => Some(issue),
    }
}

/// Adds an issue to those found before.
pub fn add_issue(current: Option<String>, issue: &str) -> (issues: Option<String>)
    ensures
        issues.deep_view() == with_issue(current.deep_view(), issue@),
{
    match current {
        Some(mut text) => {
            text.append("; ");
            text.append(issue);
            Some(text)
        },
        None => Some(issue.to_owned()),
    }
}

/// The platform that an invocation compiled for; nothing stands for the host.
pub open spec fn platform_of(started: InvocationStartedView) -> Option<Seq<char>> {
    match started.compilation_context {
        CompilationContext::Host => None,
        CompilationContext::Target => Some(started.target_triple),
    }
}

/// The platform that an invocation compiled for.
pub fn compilation_platform(started: &InvocationStarted) -> (platform: Option<String>)
    ensures
        platform.deep_view() == platform_of(started.deep_view()),
{
    match started.compilation_context {
        CompilationContext::Host => None,
        CompilationContext::Target => Some(started.target_triple.clone()),
    }
}

/// The name of a compilation context.
pub open spec fn context_name(context: CompilationContext) -> Seq<char> {
    match context {
        CompilationContext::Host => "host"@,
        CompilationContext::Target => "target"@,
    }
}

/// The name of a compilation context.
pub fn compilation_context_name(context: CompilationContext) -> (name: &'static str)
    ensures
        name@ == context_name(context),
{
    match context {
        CompilationContext::Host => "host",
        CompilationContext::Target => "target",
    }
}

/// The role that the kinds of a target give it whatever the mode.
pub open spec fn special_role_of(kinds: Seq<Seq<char>>) -> Option<Seq<char>> {
    if kinds.contains("test"@) {
        Some("test"@)
    } else if kinds.contains("bench"@) {
        Some("bench"@)
    } else if kinds.contains("example"@) {
        Some("example"@)
    } else if kinds.contains("custom-build"@) {
        Some("build"@)
    } else {
        None
    }
}

fn special_role(kinds: &Vec<String>) -> (role: Option<&'static str>)
    ensures
        match role {
            Some(role) => special_role_of(kinds.deep_view()) == Some(role@),
            None => special_role_of(kinds.deep_view()) is None,
        },
{
    if list_contains(kinds, "test") {
        Some("test")
    } else if list_contains(kinds, "bench") {
        Some("bench")
    } else if list_contains(kinds, "example") {
        Some("example")
    } else if list_contains(kinds, "custom-build") {
        Some("build")
    } else {
        None
    }
}

/// Whether Cargo and rustc agree on whether a target is compiled as a test, whatever its kinds.
pub fn cargo_mode_matches(
    kinds: &Vec<String>,
    rustc_test_mode: bool,
    cargo_test_profile: bool,
) -> (result: bool)
    ensures
        result == (rustc_test_mode == cargo_test_profile),
{
    rustc_test_mode == cargo_test_profile
}

/// The role of a target of these kinds in an invocation.
pub open spec fn role_in_mode(kinds: Seq<Seq<char>>, test_mode: bool) -> Seq<char> {
    if test_mode {
        if kinds.contains("test"@) {
            "test"@
        } else if kinds.contains("bench"@) {
            "bench"@
        } else {
            "unit_test"@
        }
    } else {
        match special_role_of(kinds) {
            Some(role) => role,
            None => "production"@,
        }
    }
}

/// The role of a target in an invocation; every target has one.
pub fn invocation_role(target: &PackageTargetInfo, test_mode: bool) -> (role: Option<&'static str>)
    ensures
        role is Some,
        role->0@ == role_in_mode(target.kinds.deep_view(), test_mode),
{
    if test_mode {
        if list_contains(&target.kinds, "test") {
            Some("test")
        } else if list_contains(&target.kinds, "bench") {
            Some("bench")
        } else {
            Some("unit_test")
        }
    } else {
        match special_role(&target.kinds) {
            Some(role) => Some(role),
            None => Some("production"),
        }
    }
}

/// Whether two lists hold the same crate types, and any at all.
pub open spec fn crate_types_agree(left: Seq<Seq<char>>, right: Seq<Seq<char>>) -> bool {
    left.len() > 0 && right.len() > 0 && left.to_set() == right.to_set()
}

/// Whether two lists hold the same crate types, and any at all.
pub fn same_crate_types(left: &Vec<String>, right: &Vec<String>) -> (result: bool)
    ensures
        result == crate_types_agree(left.deep_view(), right.deep_view()),
{
    if left.len() == 0 || right.len() == 0 {
        return false;
    }
    let left_sorted = sorted(left);
    let right_sorted = sorted(right);
    proof {
        lemma_ascending_text(left.deep_view());
        lemma_ascending_text(right.deep_view());
    }
    same_list(&left_sorted, &right_sorted)
}

/// Sorting keeps the members.
proof fn lemma_ascending_text(values: Seq<Seq<char>>)
    ensures
        sorted_texts(values).to_set() == values.to_set(),
{
    vstd::seq_lib::seq_to_set_is_finite(values);
    lemma_ascending_exists::<String>(values.to_set());
}

/// The law of crate types: what agrees does so in either order, and rearranging or repeating the
/// types of a list changes nothing.
pub proof fn law_crate_types_are_sets(
    left: Seq<Seq<char>>,
    right: Seq<Seq<char>>,
    rearranged: Seq<Seq<char>>,
)
    requires
        rearranged.len() > 0,
        left.len() > 0,
        rearranged.to_set() == left.to_set(),
    ensures
        crate_types_agree(left, right) == crate_types_agree(right, left),
        crate_types_agree(left, right) == crate_types_agree(rearranged, right),
        crate_types_agree(left, left),
{
}

/// The crate types that rustc compiles where it is told none.
pub open spec fn rustc_types(types: Seq<Seq<char>>) -> Seq<Seq<char>> {
    if types.len() == 0 {
        seq!["bin"@]
    } else {
        types
    }
}

/// Whether the crate types of an invocation are those of a Cargo target; a test is a binary.
pub open spec fn types_match(
    rustc: Seq<Seq<char>>,
    test_mode: bool,
    cargo: Seq<Seq<char>>,
) -> bool {
    crate_types_agree(
        rustc_types(rustc),
        if test_mode {
            seq!["bin"@]
        } else {
            cargo
        },
    )
}

/// Whether the crate types of an invocation are those of a Cargo target.
pub fn invocation_crate_types_match(
    rustc_crate_types: &Vec<String>,
    rustc_test_mode: bool,
    cargo_target_crate_types: &Vec<String>,
) -> (result: bool)
    ensures
        result == types_match(
            rustc_crate_types.deep_view(),
            rustc_test_mode,
            cargo_target_crate_types.deep_view(),
        ),
{
    let mut implicit_bin: Vec<String> = no_items();
    push_item(&mut implicit_bin, "bin".to_owned());
    proof {
        assert(implicit_bin.deep_view() =~= seq!["bin"@]);
    }
    let rustc_crate_types = if rustc_crate_types.len() == 0 {
        &implicit_bin
    } else {
        rustc_crate_types
    };
    if rustc_test_mode {
        same_crate_types(rustc_crate_types, &implicit_bin)
    } else {
        same_crate_types(rustc_crate_types, cargo_target_crate_types)
    }
}

/// The key of a planned unit.
pub open spec fn planned_key(known: Seq<CanonicalPathView>, unit: ExpectedUnitView) -> UnitKeyView {
    UnitKeyView {
        package_id: unit.package_id,
        name: unit.target_name,
        source: canonical_key(known, unit.target_source),
        kinds: sorted_texts(unit.target_kinds),
        crate_types: sorted_texts(unit.target_crate_types),
        features: sorted_texts(unit.features),
        platform: unit.platform,
    }
}

/// The key of the unit that an artifact came from, for the platform of an invocation.
pub open spec fn artifact_key(
    known: Seq<CanonicalPathView>,
    artifact: CargoArtifactView,
    started: InvocationStartedView,
) -> UnitKeyView {
    UnitKeyView {
        package_id: artifact.package_id,
        name: artifact.target_name,
        source: canonical_key(known, artifact.target_source),
        kinds: sorted_texts(artifact.target_kinds),
        crate_types: sorted_texts(artifact.target_crate_types),
        features: sorted_texts(artifact.features),
        platform: platform_of(started),
    }
}

/// The key of the unit that a correlated invocation compiled, where its target and features are
/// known.
pub open spec fn correlated_key(
    known: Seq<CanonicalPathView>,
    correlated: CorrelatedInvocationView,
) -> Option<UnitKeyView> {
    let features = match correlated.cargo_features {
        Some(features) => Some(features),
        None => match correlated.invocation.profile {
            Some(profile) => Some(profile.features),
            None => None,
        },
    };
    match (correlated.target, features) {
        (Some(target), Some(features)) => Some(
            UnitKeyView {
                package_id: target.package_id,
                name: target.name,
                source: canonical_key(known, target.source),
                kinds: sorted_texts(target.kinds),
                crate_types: sorted_texts(target.crate_types),
                features: sorted_texts(features),
                platform: platform_of(correlated.invocation.started),
            },
        ),
        _ => None,
    }
}

/// A unit, written out with its source as it is named.
pub open spec fn rendered_key(key: UnitKeyView, source: Seq<char>) -> Seq<char> {
    key.package_id + ":"@ + key.name + " [kinds="@ + joined(key.kinds, ","@) + "; crate_types="@
        + joined(key.crate_types, ","@) + "; features="@ + joined(key.features, ","@)
        + "; platform="@ + (match key.platform {
        Some(platform) => platform,
        None => "host"@,
    }) + "] at "@ + source
}

/// Whether a unit is one of a target, for the platform of an invocation.
pub open spec fn key_matches_target(
    known: Seq<CanonicalPathView>,
    key: UnitKeyView,
    target: CompilerTargetReportView,
    started: InvocationStartedView,
) -> bool {
    &&& key.package_id == target.package_id
    &&& key.name == target.name
    &&& key.source == canonical_key(known, target.source)
    &&& key.kinds == sorted_texts(target.kinds)
    &&& key.crate_types == sorted_texts(target.crate_types)
    &&& key.platform == platform_of(started)
}

impl UnitKey {
    /// The key of a planned unit.
    pub fn from_expected(places: &Locations, unit: &ExpectedUnit) -> (key: Self)
        ensures
            key.deep_view() == planned_key(places.deep_view().canonical, unit.deep_view()),
    {
        UnitKey {
            package_id: unit.package_id.clone(),
            name: unit.target_name.clone(),
            source: canonical_place(places, unit.target_source.as_str()),
            kinds: sorted(&unit.target_kinds),
            crate_types: sorted(&unit.target_crate_types),
            features: sorted(&unit.features),
            platform: unit.platform.clone(),
        }
    }

    /// The key of the unit that an artifact came from.
    pub fn from_artifact(
        places: &Locations,
        artifact: &CargoArtifact,
        started: &InvocationStarted,
    ) -> (key: Self)
        ensures
            key.deep_view() == artifact_key(
                places.deep_view().canonical,
                artifact.deep_view(),
                started.deep_view(),
            ),
    {
        UnitKey {
            package_id: artifact.package_id.clone(),
            name: artifact.target_name.clone(),
            source: canonical_place(places, artifact.target_source.as_str()),
            kinds: sorted(&artifact.target_kinds),
            crate_types: sorted(&artifact.target_crate_types),
            features: sorted(&artifact.features),
            platform: compilation_platform(started),
        }
    }

    /// The key of the unit that a correlated invocation compiled.
    pub fn from_correlated(places: &Locations, correlated: &CorrelatedInvocation) -> (key: Option<
        Self,
    >)
        ensures
            key.deep_view() == correlated_key(
                places.deep_view().canonical,
                correlated.deep_view(),
            ),
    {
        let target = match &correlated.target {
            Some(target) => target,
            None => {
                return None;
            },
        };
        let features = match &correlated.cargo_features {
            Some(features) => features,
            None => match &correlated.invocation.profile {
                Some(profile) => &profile.features,
                None => {
                    return None;
                },
            },
        };
        Some(
            UnitKey {
                package_id: target.package_id.clone(),
                name: target.name.clone(),
                source: canonical_place(places, target.source.as_str()),
                kinds: sorted(&target.kinds),
                crate_types: sorted(&target.crate_types),
                features: sorted(features),
                platform: compilation_platform(&correlated.invocation.started),
            },
        )
    }

    /// Writes the unit out, with its source as it is named.
    pub fn render(&self, source: &str) -> (text: String)
        ensures
            text@ == rendered_key(self.deep_view(), source@),
    {
        let mut text = self.package_id.clone();
        text.append(":");
        text.append(self.name.as_str());
        text.append(" [kinds=");
        text.append(join(&self.kinds, ",").as_str());
        text.append("; crate_types=");
        text.append(join(&self.crate_types, ",").as_str());
        text.append("; features=");
        text.append(join(&self.features, ",").as_str());
        text.append("; platform=");
        match &self.platform {
            Some(platform) => {
                text.append(platform.as_str());
            },
            None => {
                text.append("host");
            },
        }
        text.append("] at ");
        text.append(source);
        text
    }

    /// Whether the unit is one of a target, for the platform of an invocation.
    pub fn matches_target(
        &self,
        places: &Locations,
        target: &CompilerTargetReport,
        started: &InvocationStarted,
    ) -> (result: bool)
        ensures
            result == key_matches_target(
                places.deep_view().canonical,
                self.deep_view(),
                target.deep_view(),
                started.deep_view(),
            ),
    {
        same(self.package_id.as_str(), target.package_id.as_str()) && same(
            self.name.as_str(),
            target.name.as_str(),
        ) && same_key(&self.source, &canonical_place(places, target.source.as_str()))
            && same_list(&self.kinds, &sorted(&target.kinds)) && same_list(
            &self.crate_types,
            &sorted(&target.crate_types),
        ) && same_optional(&self.platform, &compilation_platform(started))
    }
}

/// The key of a reported target.
pub open spec fn report_key(
    known: Seq<CanonicalPathView>,
    target: CompilerTargetReportView,
) -> TargetKeyView {
    TargetKeyView {
        package_id: target.package_id,
        name: target.name,
        source: canonical_key(known, target.source),
        kinds: sorted_texts(target.kinds),
        crate_types: sorted_texts(target.crate_types),
        role: target.role,
        compilation_context: target.compilation_context,
    }
}

impl TargetKey {
    /// The key of a reported target.
    pub fn from_report(places: &Locations, target: &CompilerTargetReport) -> (key: Self)
        ensures
            key.deep_view() == report_key(places.deep_view().canonical, target.deep_view()),
    {
        TargetKey {
            package_id: target.package_id.clone(),
            name: target.name.clone(),
            source: canonical_place(places, target.source.as_str()),
            kinds: sorted(&target.kinds),
            crate_types: sorted(&target.crate_types),
            role: target.role.clone(),
            compilation_context: target.compilation_context.clone(),
        }
    }
}

/// The directory that a manifest lies in.
pub open spec fn manifest_directory(path: Seq<char>) -> Seq<char> {
    match parent_of(path) {
        Some(directory) => directory,
        None => path,
    }
}

/// Whether a file of an artifact is one that an invocation wrote.
pub open spec fn file_matches(
    known: Seq<CanonicalPathView>,
    started: InvocationStartedView,
    filename: Seq<char>,
) -> bool {
    let expected = started.artifact.crate_name + (match started.artifact.extra_filename {
        Some(suffix) => suffix,
        None => Seq::empty(),
    });
    &&& started.artifact.out_dir is Some
    &&& parent_of(filename) is Some
    &&& canonical_key(known, parent_of(filename)->0) == canonical_key(
        known,
        started.artifact.out_dir->0,
    )
    &&& stem_of(filename) is Some
    &&& (stem_of(filename)->0 == expected || without_prefix(stem_of(filename)->0, "lib"@) == Some(
        expected,
    ))
}

/// Whether an artifact is what an invocation compiled: the package, the source, the mode, the
/// crate types and one of the files agree.
pub open spec fn artifact_fits(
    known: Seq<CanonicalPathView>,
    started: InvocationStartedView,
    artifact: CargoArtifactView,
) -> bool {
    &&& started.manifest_dir is Some
    &&& canonical_key(known, started.manifest_dir->0) == canonical_key(
        known,
        manifest_directory(artifact.manifest_path),
    )
    &&& started.input is Some
    &&& canonical_key(known, path_from(started.working_directory, started.input->0))
        == canonical_key(known, artifact.target_source)
    &&& started.test_mode == artifact.profile_test
    &&& types_match(started.artifact.crate_types, started.test_mode, artifact.target_crate_types)
    &&& any_where(artifact.filenames, |filename: Seq<char>| file_matches(known, started, filename))
}

fn check_file(places: &Locations, started: &InvocationStarted, filename: &str) -> (result: bool)
    ensures
        result == file_matches(places.deep_view().canonical, started.deep_view(), filename@),
{
    let out_dir = match &started.artifact.out_dir {
        Some(out_dir) => out_dir,
        None => {
            return false;
        },
    };
    let directory = match parent(filename) {
        Some(directory) => directory,
        None => {
            return false;
        },
    };
    let stem = match file_stem(filename) {
        Some(stem) => stem,
        None => {
            return false;
        },
    };
    let mut expected = started.artifact.crate_name.clone();
    match &started.artifact.extra_filename {
        Some(suffix) => {
            expected.append(suffix.as_str());
        },
        None => {
            proof {
                assert(expected@ + Seq::<char>::empty() =~= expected@);
            }
        },
    }
    let bare = match strip_prefix(stem.as_str(), "lib") {
        Some(bare) => same(bare.as_str(), expected.as_str()),
        None => false,
    };
    same_key(
        &canonical_place(places, directory.as_str()),
        &canonical_place(places, out_dir.as_str()),
    ) && (same(stem.as_str(), expected.as_str()) || bare)
}

/// Whether an artifact is what an invocation compiled.
pub fn artifact_matches(
    places: &Locations,
    started: &InvocationStarted,
    artifact: &CargoArtifact,
) -> (result: bool)
    ensures
        result == artifact_fits(
            places.deep_view().canonical,
            started.deep_view(),
            artifact.deep_view(),
        ),
{
    let manifest_dir = match &started.manifest_dir {
        Some(manifest_dir) => manifest_dir,
        None => {
            return false;
        },
    };
    let directory = match parent(artifact.manifest_path.as_str()) {
        Some(directory) => directory,
        None => artifact.manifest_path.clone(),
    };
    if !same_key(
        &canonical_place(places, manifest_dir.as_str()),
        &canonical_place(places, directory.as_str()),
    ) {
        return false;
    }
    let input = match &started.input {
        Some(input) => resolve(started.working_directory.as_str(), input.as_str()),
        None => {
            return false;
        },
    };
    if !same_key(
        &canonical_place(places, input.as_str()),
        &canonical_place(places, artifact.target_source.as_str()),
    ) {
        return false;
    }
    if !cargo_mode_matches(&artifact.target_kinds, started.test_mode, artifact.profile_test) {
        return false;
    }
    if !invocation_crate_types_match(
        &started.artifact.crate_types,
        started.test_mode,
        &artifact.target_crate_types,
    ) {
        return false;
    }
    let ghost known = places.deep_view().canonical;
    let ghost told = started.deep_view();
    let ghost property = |filename: Seq<char>| file_matches(known, told, filename);
    let test = |filename: &String| -> (result: bool)
        ensures
            result == property(filename.deep_view()),
    {
        check_file(places, started, filename.as_str())
    };
    any_item(&artifact.filenames, test, Ghost(property))
}

/// The report of a target by its metadata.
pub open spec fn metadata_report(
    package: AuditPackageView,
    target: PackageTargetInfoView,
    started: InvocationStartedView,
) -> CompilerTargetReportView {
    CompilerTargetReportView {
        package_id: package.id,
        name: target.name,
        kinds: target.kinds,
        crate_types: target.crate_types,
        source: target.source,
        role: role_in_mode(target.kinds, started.test_mode),
        compilation_context: context_name(started.compilation_context),
    }
}

fn metadata_target(
    package: &AuditPackage,
    target: &PackageTargetInfo,
    started: &InvocationStarted,
) -> (report: CompilerTargetReport)
    ensures
        report.deep_view() == metadata_report(
            package.deep_view(),
            target.deep_view(),
            started.deep_view(),
        ),
{
    let role = match invocation_role(target, started.test_mode) {
        Some(role) => role,
        None => "production",
    };
    CompilerTargetReport {
        package_id: package.id.clone(),
        name: target.name.clone(),
        kinds: copy_list(&target.kinds),
        crate_types: copy_list(&target.crate_types),
        source: target.source.clone(),
        role: role.to_owned(),
        compilation_context: compilation_context_name(started.compilation_context).to_owned(),
    }
}

/// The report of a target by the artifact that Cargo built of it.
pub open spec fn artifact_report(
    artifact: CargoArtifactView,
    started: InvocationStartedView,
) -> CompilerTargetReportView {
    CompilerTargetReportView {
        package_id: artifact.package_id,
        name: artifact.target_name,
        kinds: artifact.target_kinds,
        crate_types: artifact.target_crate_types,
        source: artifact.target_source,
        role: artifact_role(artifact.target_kinds, artifact.profile_test),
        compilation_context: context_name(started.compilation_context),
    }
}

fn target_report(artifact: &CargoArtifact, started: &InvocationStarted) -> (report:
    CompilerTargetReport)
    ensures
        report.deep_view() == artifact_report(artifact.deep_view(), started.deep_view()),
{
    CompilerTargetReport {
        package_id: artifact.package_id.clone(),
        name: artifact.target_name.clone(),
        kinds: copy_list(&artifact.target_kinds),
        crate_types: copy_list(&artifact.target_crate_types),
        source: artifact.target_source.clone(),
        role: artifact.role().to_owned(),
        compilation_context: compilation_context_name(started.compilation_context).to_owned(),
    }
}

/// Whether no later package has the identity of the one at a place.
pub open spec fn is_last(packages: Seq<AuditPackageView>, at: int) -> bool {
    last_place(packages, |package: AuditPackageView| package.id == packages[at].id) == Some(at)
}

/// Picks the report of a target that an invocation may have compiled.
pub open spec fn candidate(
    known: Seq<CanonicalPathView>,
    package: AuditPackageView,
    started: InvocationStartedView,
) -> spec_fn(PackageTargetInfoView) -> Option<CompilerTargetReportView> {
    |target: PackageTargetInfoView|
        if canonical_key(known, target.source) == canonical_key(
            known,
            path_from(started.working_directory, started.input->0),
        ) && types_match(started.artifact.crate_types, started.test_mode, target.crate_types) {
            Some(metadata_report(package, target, started))
        } else {
            None
        }
}

/// The reports of the targets of the package at a place that an invocation may have compiled.
pub open spec fn candidates_at(
    known: Seq<CanonicalPathView>,
    packages: Seq<AuditPackageView>,
    started: InvocationStartedView,
) -> spec_fn(int) -> Seq<CompilerTargetReportView> {
    |at: int|
        if is_last(packages, at) && canonical_key(known, packages[at].root) == canonical_key(
            known,
            started.manifest_dir->0,
        ) {
            collected(packages[at].targets, candidate(known, packages[at], started))
        } else {
            Seq::empty()
        }
}

/// What a failure and a target have in common.
pub type FailureKey = (String, (String, (PathKey, (Vec<String>, Vec<String>))));

/// The key of a failure.
pub open spec fn failure_key(known: Seq<CanonicalPathView>, failure: CargoFailureView) -> (
    Seq<char>,
    (Seq<char>, (Seq<(usize, Seq<char>)>, (Seq<Seq<char>>, Seq<Seq<char>>))),
) {
    (
        failure.package_id,
        (
            failure.target_name,
            (
                canonical_key(known, failure.target_source),
                (sorted_texts(failure.target_kinds), sorted_texts(failure.target_crate_types)),
            ),
        ),
    )
}

/// The key of the failures of a reported target.
pub open spec fn failed_key(known: Seq<CanonicalPathView>, target: CompilerTargetReportView) -> (
    Seq<char>,
    (Seq<char>, (Seq<(usize, Seq<char>)>, (Seq<Seq<char>>, Seq<Seq<char>>))),
) {
    (
        target.package_id,
        (
            target.name,
            (
                canonical_key(known, target.source),
                (sorted_texts(target.kinds), sorted_texts(target.crate_types)),
            ),
        ),
    )
}

/// Whether a failure is one of a target of a package, compiled from a source.
pub open spec fn target_failed(
    known: Seq<CanonicalPathView>,
    input: Seq<(usize, Seq<char>)>,
    failure: CargoFailureView,
) -> spec_fn(PackageTargetInfoView) -> bool {
    |target: PackageTargetInfoView|
        target.name == failure.target_name && target.kinds == failure.target_kinds
            && canonical_key(known, target.source) == input && crate_types_agree(
            target.crate_types,
            failure.target_crate_types,
        )
}

/// Picks the key of a failure that may be the one of an invocation.
pub open spec fn relevant_failure(
    known: Seq<CanonicalPathView>,
    packages: Seq<AuditPackageView>,
    started: InvocationStartedView,
) -> spec_fn(CargoFailureView) -> Option<
    (Seq<char>, (Seq<char>, (Seq<(usize, Seq<char>)>, (Seq<Seq<char>>, Seq<Seq<char>>)))),
> {
    |failure: CargoFailureView|
        {
            let input = canonical_key(
                known,
                path_from(started.working_directory, started.input->0),
            );
            match last_place(
                packages,
                |package: AuditPackageView| package.id == failure.package_id,
            ) {
                None => None,
                Some(at) => if canonical_key(known, packages[at].root) == canonical_key(
                    known,
                    started.manifest_dir->0,
                ) && canonical_key(known, failure.target_source) == input && types_match(
                    started.artifact.crate_types,
                    started.test_mode,
                    failure.target_crate_types,
                ) && any_where(packages[at].targets, target_failed(known, input, failure)) {
                    Some(failure_key(known, failure))
                } else {
                    None
                },
            }
        }
}

/// The candidates that the failures leave.
pub open spec fn remaining_candidates(
    known: Seq<CanonicalPathView>,
    failures: Seq<CargoFailureView>,
    packages: Seq<AuditPackageView>,
    started: InvocationStartedView,
) -> Seq<CompilerTargetReportView> {
    let metadata = flattened(packages.len() as int, candidates_at(known, packages, started));
    let failed = image(failures, relevant_failure(known, packages, started));
    collected(
        metadata,
        |target: CompilerTargetReportView|
            if failed.is_empty() || failed.contains(failed_key(known, target)) {
                Some(target)
            } else {
                None
            },
    )
}

/// The target that an invocation without an artifact was for, where just one can be meant.
pub open spec fn target_of_failed(
    known: Seq<CanonicalPathView>,
    failures: Seq<CargoFailureView>,
    packages: Seq<AuditPackageView>,
    started: InvocationStartedView,
) -> Option<CompilerTargetReportView> {
    let left = remaining_candidates(known, failures, packages, started);
    if started.manifest_dir is None || started.input is None || left.len() == 0 || any_where(
        left,
        |target: CompilerTargetReportView| report_key(known, target) != report_key(known, left[0]),
    ) {
        None
    } else {
        Some(left[0])
    }
}

fn last_with_id(packages: &Vec<AuditPackage>, id: &str) -> (place: Option<usize>)
    ensures
        match place {
            Some(at) => at < packages.len() && last_place(
                packages.deep_view(),
                |package: AuditPackageView| package.id == id@,
            ) == Some(at as int),
            None => last_place(
                packages.deep_view(),
                |package: AuditPackageView| package.id == id@,
            ) is None,
        },
{
    let ghost property = |package: AuditPackageView| package.id == id@;
    let test = |package: &AuditPackage| -> (result: bool)
        ensures
            result == property(package.deep_view()),
    {
        same(package.id.as_str(), id)
    };
    find_last(packages, test, Ghost(property))
}

fn package_candidates(
    places: &Locations,
    package: &AuditPackage,
    started: &InvocationStarted,
    input: &PathKey,
) -> (list: Vec<CompilerTargetReport>)
    requires
        started.input is Some,
        input.deep_view() == canonical_key(
            places.deep_view().canonical,
            path_from(started.deep_view().working_directory, started.deep_view().input->0),
        ),
    ensures
        list.deep_view() == collected(
            package.deep_view().targets,
            candidate(places.deep_view().canonical, package.deep_view(), started.deep_view()),
        ),
{
    let ghost f = candidate(
        places.deep_view().canonical,
        package.deep_view(),
        started.deep_view(),
    );
    let pick = |target: &PackageTargetInfo| -> (report: Option<CompilerTargetReport>)
        ensures
            report.deep_view() == f(target.deep_view()),
    {
        if same_key(&canonical_place(places, target.source.as_str()), input)
            && invocation_crate_types_match(
            &started.artifact.crate_types,
            started.test_mode,
            &target.crate_types,
        ) {
            Some(metadata_target(package, target, started))
        } else {
            None
        }
    };
    collect_items(&package.targets, pick, Ghost(f))
}

fn all_candidates(
    places: &Locations,
    packages: &Vec<AuditPackage>,
    started: &InvocationStarted,
    input: &PathKey,
    manifest_dir: &PathKey,
) -> (list: Vec<CompilerTargetReport>)
    requires
        started.input is Some,
        input.deep_view() == canonical_key(
            places.deep_view().canonical,
            path_from(started.deep_view().working_directory, started.deep_view().input->0),
        ),
        started.deep_view().manifest_dir is Some,
        manifest_dir.deep_view() == canonical_key(
            places.deep_view().canonical,
            started.deep_view().manifest_dir->0,
        ),
    ensures
        list.deep_view() == flattened(
            packages.len() as int,
            candidates_at(
                places.deep_view().canonical,
                packages.deep_view(),
                started.deep_view(),
            ),
        ),
{
    let ghost known = places.deep_view().canonical;
    let ghost all = packages.deep_view();
    let ghost f = candidates_at(known, all, started.deep_view());
    let mut list: Vec<CompilerTargetReport> = no_items();
    let mut index: usize = 0;
    while index < packages.len()
        invariant
            known == places.deep_view().canonical,
            all == packages.deep_view(),
            f == candidates_at(known, all, started.deep_view()),
            started.input is Some,
            input.deep_view() == canonical_key(
                known,
                path_from(started.deep_view().working_directory, started.deep_view().input->0),
            ),
            started.deep_view().manifest_dir is Some,
            manifest_dir.deep_view() == canonical_key(known, started.deep_view().manifest_dir->0),
            index <= packages.len(),
            list.deep_view() == flattened(index as int, f),
        decreases packages.len() - index,
    {
        let package = &packages[index];
        proof {
            assert(all[index as int] == package.deep_view());
        }
        let last = match last_with_id(packages, package.id.as_str()) {
            Some(at) => at == index,
            None => false,
        };
        if last && same_key(&canonical_place(places, package.root.as_str()), manifest_dir) {
            append_items(&mut list, package_candidates(places, package, started, input));
        } else {
            proof {
                assert(flattened(index as int, f) + Seq::<CompilerTargetReportView>::empty()
                    =~= flattened(index as int, f));
            }
        }
        index = index + 1;
    }
    list
}

fn failure_key_for(
    places: &Locations,
    failure: &CargoFailure,
    packages: &Vec<AuditPackage>,
    started: &InvocationStarted,
    input: &PathKey,
    manifest_dir: &PathKey,
) -> (key: Option<FailureKey>)
    requires
        started.input is Some,
        input.deep_view() == canonical_key(
            places.deep_view().canonical,
            path_from(started.deep_view().working_directory, started.deep_view().input->0),
        ),
        started.deep_view().manifest_dir is Some,
        manifest_dir.deep_view() == canonical_key(
            places.deep_view().canonical,
            started.deep_view().manifest_dir->0,
        ),
    ensures
        key.deep_view() == relevant_failure(
            places.deep_view().canonical,
            packages.deep_view(),
            started.deep_view(),
        )(failure.deep_view()),
{
    let ghost known = places.deep_view().canonical;
    let at: usize = match last_with_id(packages, failure.package_id.as_str()) {
        Some(at) => at,
        None => {
            return None;
        },
    };
    proof {
        assert(packages.deep_view()[at as int] == packages[at as int].deep_view());
    }
    let source = canonical_place(places, failure.target_source.as_str());
    if !same_key(&canonical_place(places, packages[at].root.as_str()), manifest_dir) || !same_key(
        &source,
        input,
    ) || !invocation_crate_types_match(
        &started.artifact.crate_types,
        started.test_mode,
        &failure.target_crate_types,
    ) {
        return None;
    }
    let ghost property = target_failed(known, input.deep_view(), failure.deep_view());
    let test = |target: &PackageTargetInfo| -> (result: bool)
        ensures
            result == property(target.deep_view()),
    {
        same(target.name.as_str(), failure.target_name.as_str()) && same_list(
            &target.kinds,
            &failure.target_kinds,
        ) && same_key(&canonical_place(places, target.source.as_str()), input)
            && same_crate_types(&target.crate_types, &failure.target_crate_types)
    };
    if !any_item(&packages[at].targets, test, Ghost(property)) {
        return None;
    }
    Some(
        (
            failure.package_id.clone(),
            (
                failure.target_name.clone(),
                (
                    source,
                    (sorted(&failure.target_kinds), sorted(&failure.target_crate_types)),
                ),
            ),
        ),
    )
}

fn failure_keys(
    places: &Locations,
    failures: &Vec<CargoFailure>,
    packages: &Vec<AuditPackage>,
    started: &InvocationStarted,
    input: &PathKey,
    manifest_dir: &PathKey,
) -> (keys: SortedSet<FailureKey>)
    requires
        started.input is Some,
        input.deep_view() == canonical_key(
            places.deep_view().canonical,
            path_from(started.deep_view().working_directory, started.deep_view().input->0),
        ),
        started.deep_view().manifest_dir is Some,
        manifest_dir.deep_view() == canonical_key(
            places.deep_view().canonical,
            started.deep_view().manifest_dir->0,
        ),
    ensures
        keys.wf(),
        keys.deep_view() == image(
            failures.deep_view(),
            relevant_failure(
                places.deep_view().canonical,
                packages.deep_view(),
                started.deep_view(),
            ),
        ),
{
    let ghost known = places.deep_view().canonical;
    let ghost f = relevant_failure(known, packages.deep_view(), started.deep_view());
    let pick = |failure: &CargoFailure| -> (key: Option<FailureKey>)
        ensures
            key.deep_view() == f(failure.deep_view()),
    {
        failure_key_for(places, failure, packages, started, input, manifest_dir)
    };
    collect_set(failures, pick, Ghost(f))
}

fn same_target(
    places: &Locations,
    left: &CompilerTargetReport,
    right: &CompilerTargetReport,
) -> (result: bool)
    ensures
        result == (report_key(places.deep_view().canonical, left.deep_view()) == report_key(
            places.deep_view().canonical,
            right.deep_view(),
        )),
{
    let left_key = TargetKey::from_report(places, left);
    let right_key = TargetKey::from_report(places, right);
    proof {
        TargetKey::irreflexive(left_key.deep_view());
    }
    match left_key.rank(&right_key) {
        Rank::Equal => true,
        _ => false,
    }
}

/// Finds the target that an invocation without an artifact was for, where just one can be meant.
pub fn failed_target(
    places: &Locations,
    started: &InvocationStarted,
    failures: &Vec<CargoFailure>,
    packages: &Vec<AuditPackage>,
) -> (target: Option<CompilerTargetReport>)
    ensures
        target.deep_view() == target_of_failed(
            places.deep_view().canonical,
            failures.deep_view(),
            packages.deep_view(),
            started.deep_view(),
        ),
{
    let ghost known = places.deep_view().canonical;
    let manifest_dir = match &started.manifest_dir {
        Some(path) => canonical_place(places, path.as_str()),
        None => {
            return None;
        },
    };
    let input = match &started.input {
        Some(path) => canonical_place(
            places,
            resolve(started.working_directory.as_str(), path.as_str()).as_str(),
        ),
        None => {
            return None;
        },
    };
    let metadata = all_candidates(
        places,
        packages,
        started,
        &input,
        &manifest_dir,
    );
    let failed = failure_keys(
        places,
        failures,
        packages,
        started,
        &input,
        &manifest_dir,
    );
    let unfailed = failed.len() == 0;
    proof {
        failed.lemma_seq();
        assert(unfailed == failed.deep_view().is_empty()) by {
            if unfailed {
                assert(failed.deep_view() =~= Set::empty());
            }
        }
    }
    let ghost keys = failed.deep_view();
    let ghost f = |target: CompilerTargetReportView|
        if keys.is_empty() || keys.contains(failed_key(known, target)) {
            Some(target)
        } else {
            None
        };
    let pick = |target: &CompilerTargetReport| -> (kept: Option<CompilerTargetReport>)
        ensures
            kept.deep_view() == f(target.deep_view()),
    {
        let key = (
            target.package_id.clone(),
            (
                target.name.clone(),
                (
                    canonical_place(places, target.source.as_str()),
                    (sorted(&target.kinds), sorted(&target.crate_types)),
                ),
            ),
        );
        if unfailed || failed.contains(&key) {
            Some(target.clone())
        } else {
            None
        }
    };
    let mut left = collect_items(&metadata, pick, Ghost(f));
    let ghost all = left.deep_view();
    if left.len() == 0 {
        return None;
    }
    proof {
        assert(all[0] == left[0].deep_view());
    }
    let first = left[0].clone();
    let ghost property = |target: CompilerTargetReportView|
        report_key(known, target) != report_key(known, all[0]);
    let test = |target: &CompilerTargetReport| -> (result: bool)
        ensures
            result == property(target.deep_view()),
    {
        !same_target(places, target, &first)
    };
    if any_item(&left, test, Ghost(property)) {
        return None;
    }
    Some(left.remove(0))
}

/// What invocations are held against.
pub struct Evidence<'a> {
    pub places: &'a Locations,
    /// The artifacts of the selected packages.
    pub artifacts: Vec<CargoArtifact>,
    pub failures: &'a Vec<CargoFailure>,
    pub packages: &'a Vec<AuditPackage>,
    /// All planned units.
    pub planned: &'a Vec<ExpectedUnit>,
    /// The planned units of the selected packages.
    pub units: Vec<UnitKey>,
}

/// The model of [`Evidence`].
pub struct EvidenceView {
    pub places: LocationsView,
    pub artifacts: Seq<CargoArtifactView>,
    pub failures: Seq<CargoFailureView>,
    pub packages: Seq<AuditPackageView>,
    pub planned: Seq<ExpectedUnitView>,
    pub units: Seq<UnitKeyView>,
}

impl<'a> DeepView for Evidence<'a> {
    type V = EvidenceView;

    open spec fn deep_view(&self) -> EvidenceView {
        EvidenceView {
            places: self.places.deep_view(),
            artifacts: self.artifacts.deep_view(),
            failures: self.failures.deep_view(),
            packages: self.packages.deep_view(),
            planned: self.planned.deep_view(),
            units: self.units.deep_view(),
        }
    }
}

/// Picks the keys of the planned units of selected packages.
pub open spec fn selected_unit(
    known: Seq<CanonicalPathView>,
    selected: Set<Seq<char>>,
) -> spec_fn(ExpectedUnitView) -> Option<UnitKeyView> {
    |unit: ExpectedUnitView|
        if selected.contains(unit.package_id) {
            Some(planned_key(known, unit))
        } else {
            None
        }
}

fn selected_units(
    places: &Locations,
    units: &Vec<ExpectedUnit>,
    selected: &SortedSet<String>,
) -> (keys: Vec<UnitKey>)
    requires
        selected.wf(),
    ensures
        keys.deep_view() == collected(
            units.deep_view(),
            selected_unit(places.deep_view().canonical, selected.deep_view()),
        ),
        keys.len() <= units.len(),
{
    let ghost f = selected_unit(places.deep_view().canonical, selected.deep_view());
    let pick = |unit: &ExpectedUnit| -> (key: Option<UnitKey>)
        ensures
            key.deep_view() == f(unit.deep_view()),
    {
        if selected.contains(&unit.package_id) {
            Some(UnitKey::from_expected(places, unit))
        } else {
            None
        }
    };
    let keys = collect_items(units, pick, Ghost(f));
    proof {
        lemma_collected_shorter(units.deep_view(), f);
        assert(keys.len() == keys.deep_view().len());
    }
    keys
}

/// Collecting leaves no more than there was.
pub proof fn lemma_collected_shorter<A, B>(s: Seq<A>, f: spec_fn(A) -> Option<B>)
    ensures
        collected(s, f).len() <= s.len(),
    decreases s.len(),
{
    if s.len() > 0 {
        lemma_collected_shorter(s.drop_last(), f);
    }
}

/// How many invocations each planned unit of a selected package takes.
pub fn expected_units(
    places: &Locations,
    compiler_profile: &CompilerProfile,
    selected: &SortedSet<String>,
) -> (expected: SortedMap<UnitKey, usize>)
    requires
        selected.wf(),
    ensures
        expected.wf(),
        expected.deep_view() == tally(
            collected(
                compiler_profile.deep_view().expected_units,
                selected_unit(places.deep_view().canonical, selected.deep_view()),
            ),
        ),
{
    counts(selected_units(places, &compiler_profile.expected_units, selected))
}

/// Picks the features of the units of a target.
pub open spec fn target_features(
    known: Seq<CanonicalPathView>,
    target: CompilerTargetReportView,
    started: InvocationStartedView,
) -> spec_fn(UnitKeyView) -> Option<Seq<Seq<char>>> {
    |key: UnitKeyView|
        if key_matches_target(known, key, target, started) {
            Some(key.features)
        } else {
            None
        }
}

/// The features of the units of a target, where all have the same.
pub open spec fn sole_features(
    known: Seq<CanonicalPathView>,
    units: Seq<UnitKeyView>,
    target: CompilerTargetReportView,
    started: InvocationStartedView,
) -> Option<Seq<Seq<char>>> {
    let found = ascending::<Vec<String>>(image(units, target_features(known, target, started)));
    if found.len() == 1 {
        Some(found[0])
    } else {
        None
    }
}

fn expected_features_for_target(
    places: &Locations,
    units: &Vec<UnitKey>,
    target: &CompilerTargetReport,
    started: &InvocationStarted,
) -> (features: Option<Vec<String>>)
    ensures
        features.deep_view() == sole_features(
            places.deep_view().canonical,
            units.deep_view(),
            target.deep_view(),
            started.deep_view(),
        ),
{
    let ghost f = target_features(
        places.deep_view().canonical,
        target.deep_view(),
        started.deep_view(),
    );
    let pick = |key: &UnitKey| -> (features: Option<Vec<String>>)
        ensures
            features.deep_view() == f(key.deep_view()),
    {
        if key.matches_target(places, target, started) {
            Some(copy_list(&key.features))
        } else {
            None
        }
    };
    let found = collect_set(units, pick, Ghost(f));
    if found.len() == 1 {
        Some(copy_list(found.get(0)))
    } else {
        None
    }
}

/// Whether an artifact is what an invocation compiled.
pub open spec fn fitting(
    known: Seq<CanonicalPathView>,
    started: InvocationStartedView,
) -> spec_fn(CargoArtifactView) -> bool {
    |artifact: CargoArtifactView| artifact_fits(known, started, artifact)
}

/// The place of the one artifact that an invocation compiled, where there is just one.
pub open spec fn sole_artifact(e: EvidenceView, started: InvocationStartedView) -> Option<usize> {
    if count_where(e.artifacts, fitting(e.places.canonical, started)) == 1 {
        match last_place(e.artifacts, fitting(e.places.canonical, started)) {
            Some(at) => Some(at as usize),
            None => None,
        }
    } else {
        None
    }
}

/// The issues with the identity of an invocation among all.
pub open spec fn identity_issue(kept: Seq<InvocationView>, invocation: InvocationView) -> Option<
    Seq<char>,
> {
    let same_id = count_where(kept, |other: InvocationView| other.id == invocation.id);
    let same_key = count_where(
        kept,
        |other: InvocationView| other.started.merge_key == invocation.started.merge_key,
    );
    let first = if same_id > 1 {
        Some("duplicate selected compiler invocation ID "@ + invocation.id)
    } else {
        None
    };
    if same_key > 1 {
        with_issue(
            first,
            "duplicate selected compiler merge key "@ + invocation.started.merge_key,
        )
    } else {
        first
    }
}

/// What is amiss with an invocation that no single artifact matches.
pub open spec fn unmatched_issue(matches: nat, mapped: bool, success: bool) -> Seq<char> {
    if matches == 0 {
        if mapped && !success {
            "failed rustc invocation has no Cargo artifact"@
        } else {
            "compiler sidecar does not match a unique Cargo artifact"@
        }
    } else {
        "compiler sidecar ambiguously matches "@ + decimal(matches) + " Cargo artifacts"@
    }
}

/// The place of the artifact that an invocation compiled.
pub open spec fn claim(e: EvidenceView) -> spec_fn(InvocationView) -> Option<usize> {
    |invocation: InvocationView| sole_artifact(e, invocation.started)
}

/// An invocation with the target that it compiled, given the artifacts that were taken before.
pub open spec fn pairing(
    e: EvidenceView,
    invocation: InvocationView,
    identity: Option<Seq<char>>,
    taken: Set<usize>,
) -> CorrelatedInvocationView {
    let started = invocation.started;
    match sole_artifact(e, started) {
        Some(at) => {
            let artifact = e.artifacts[at as int];
            let unit = artifact_key(e.places.canonical, artifact, started);
            let shared = if taken.contains(at) {
                with_issue(
                    identity,
                    "multiple compiler sidecars match Cargo artifact "@ + artifact.package_id
                        + ":"@ + artifact.target_name,
                )
            } else {
                identity
            };
            let issue = if e.units.contains(unit) {
                shared
            } else {
                with_issue(
                    shared,
                    "Cargo artifact is absent from the selected unit graph: "@ + rendered_key(
                        unit,
                        canonical_form(e.places.canonical, artifact.target_source),
                    ),
                )
            };
            CorrelatedInvocationView {
                invocation,
                target: Some(artifact_report(artifact, started)),
                cargo_features: Some(artifact.features),
                cargo_profile: Some(artifact.profile),
                issue,
            }
        },
        None => {
            let target = target_of_failed(e.places.canonical, e.failures, e.packages, started);
            CorrelatedInvocationView {
                invocation,
                target,
                cargo_features: match target {
                    Some(target) => sole_features(e.places.canonical, e.units, target, started),
                    None => None,
                },
                cargo_profile: None,
                issue: with_issue(
                    identity,
                    unmatched_issue(
                        count_where(e.artifacts, fitting(e.places.canonical, started)),
                        target is Some,
                        invocation.finished.rustc_success,
                    ),
                ),
            }
        },
    }
}

/// An invocation with the target that it compiled, as far as it can be told by itself and the
/// invocations before it.
pub open spec fn paired(
    e: EvidenceView,
    kept: Seq<InvocationView>,
    i: int,
) -> CorrelatedInvocationView {
    pairing(e, kept[i], identity_issue(kept, kept[i]), image(kept.take(i), claim(e)))
}

/// All invocations with the targets that they compiled.
pub open spec fn pairs(e: EvidenceView, kept: Seq<InvocationView>) -> Seq<
    CorrelatedInvocationView,
> {
    Seq::new(kept.len(), |i: int| paired(e, kept, i))
}

/// What is said of the issue of a correlated invocation.
pub open spec fn pair_error() -> spec_fn(CorrelatedInvocationView) -> Option<Seq<char>> {
    |pair: CorrelatedInvocationView|
        match pair.issue {
            Some(issue) => Some(pair.invocation.started.merge_key + ": "@ + issue),
            None => None,
        }
}

/// The artifacts with their places.
pub open spec fn numbered_artifacts(artifacts: Seq<CargoArtifactView>) -> Seq<
    (usize, CargoArtifactView),
> {
    Seq::new(artifacts.len(), |i: int| (i as usize, artifacts[i]))
}

/// Whether no invocation compiled the artifact at a place.
pub open spec fn unclaimed(e: EvidenceView, kept: Seq<InvocationView>, at: usize) -> bool {
    !image(kept, claim(e)).contains(at)
}

/// Says which artifact no invocation compiled.
pub open spec fn unclaimed_error(e: EvidenceView, kept: Seq<InvocationView>) -> spec_fn(
    (usize, CargoArtifactView),
) -> Option<Seq<char>> {
    |entry: (usize, CargoArtifactView)|
        if unclaimed(e, kept, entry.0) {
            Some(
                "Cargo artifact has no matching compiler sidecar: "@ + entry.1.package_id + ":"@
                    + entry.1.target_name + " ("@ + (if entry.1.fresh {
                    "fresh"@
                } else {
                    "built"@
                }) + ")"@,
            )
        } else {
            None
        }
}

/// Says which unit an invocation mapped to that was not planned.
pub open spec fn unexpected_error(e: EvidenceView) -> spec_fn(CorrelatedInvocationView) -> Option<
    Seq<char>,
> {
    |pair: CorrelatedInvocationView|
        match correlated_key(e.places.canonical, pair) {
            Some(key) if !e.units.contains(key) => Some(
                "compiler sidecar mapped to an unexpected Cargo unit: "@ + rendered_key(
                    key,
                    canonical_form(e.places.canonical, pair.target->0.source),
                ),
            ),
            _ => None,
        }
}

/// Whether a correlated invocation compiled a unit.
pub open spec fn compiled(e: EvidenceView, key: UnitKeyView) -> spec_fn(
    CorrelatedInvocationView,
) -> bool {
    |pair: CorrelatedInvocationView| correlated_key(e.places.canonical, pair) == Some(key)
}

/// How many correlated invocations compiled a unit.
pub open spec fn observed(
    e: EvidenceView,
    list: Seq<CorrelatedInvocationView>,
    key: UnitKeyView,
) -> nat {
    count_where(list, compiled(e, key))
}

/// The source of a planned unit, as the first of its kind names it.
pub open spec fn planned_source(e: EvidenceView, key: UnitKeyView) -> Seq<char> {
    match first_where(
        e.planned,
        |unit: ExpectedUnitView| planned_key(e.places.canonical, unit) == key,
    ) {
        Some(unit) => canonical_form(e.places.canonical, unit.target_source),
        None => Seq::empty(),
    }
}

/// What is amiss where a unit was compiled more or less often than planned.
pub open spec fn count_issue(
    planned: nat,
    seen: nat,
    key: UnitKeyView,
    source: Seq<char>,
) -> Seq<char> {
    "selected Cargo unit graph expects "@ + decimal(planned) + " compiler sidecar(s), observed "@
        + decimal(seen) + ": "@ + rendered_key(key, source)
}

/// Says which planned unit was compiled more or less often than planned.
pub open spec fn count_error(e: EvidenceView, list: Seq<CorrelatedInvocationView>) -> spec_fn(
    UnitKeyView,
) -> Option<Seq<char>> {
    |key: UnitKeyView|
        if observed(e, list, key) != occurrences(e.units, key) {
            Some(
                count_issue(
                    occurrences(e.units, key),
                    observed(e, list, key),
                    key,
                    planned_source(e, key),
                ),
            )
        } else {
            None
        }
}

/// A correlated invocation with the issues that only all invocations together show.
pub open spec fn settled(
    e: EvidenceView,
    list: Seq<CorrelatedInvocationView>,
    pair: CorrelatedInvocationView,
) -> CorrelatedInvocationView {
    let issue = match correlated_key(e.places.canonical, pair) {
        None => pair.issue,
        Some(key) => if !e.units.contains(key) {
            with_issue(pair.issue, "compiler sidecar mapped outside the selected unit graph"@)
        } else if observed(e, list, key) != occurrences(e.units, key) {
            with_issue(
                pair.issue,
                count_issue(
                    occurrences(e.units, key),
                    observed(e, list, key),
                    key,
                    planned_source(e, key),
                ),
            )
        } else {
            pair.issue
        },
    };
    CorrelatedInvocationView { issue, ..pair }
}

/// Whether an invocation compiled a planned unit that was compiled as often as planned.
pub open spec fn accounted_for(e: EvidenceView, list: Seq<CorrelatedInvocationView>) -> spec_fn(
    CorrelatedInvocationView,
) -> bool {
    |pair: CorrelatedInvocationView|
        match correlated_key(e.places.canonical, pair) {
            None => false,
            Some(key) => e.units.contains(key) && observed(e, list, key) == occurrences(
                e.units,
                key,
            ),
        }
}

/// Whether a failure is one of a unit.
pub open spec fn failure_of_unit(
    known: Seq<CanonicalPathView>,
    key: UnitKeyView,
) -> spec_fn(CargoFailureView) -> bool {
    |failure: CargoFailureView|
        failure.package_id == key.package_id && failure.target_name == key.name && canonical_key(
            known,
            failure.target_source,
        ) == key.source && sorted_texts(failure.target_kinds) == key.kinds && sorted_texts(
            failure.target_crate_types,
        ) == key.crate_types
}

/// How often a unit that failed was compiled less often than planned.
pub open spec fn shortfall(
    e: EvidenceView,
    list: Seq<CorrelatedInvocationView>,
    key: UnitKeyView,
) -> nat {
    if any_where(e.failures, failure_of_unit(e.places.canonical, key)) && occurrences(e.units, key)
        > observed(e, list, key) {
        (occurrences(e.units, key) - observed(e, list, key)) as nat
    } else {
        0
    }
}

/// The shortfalls of some units.
pub open spec fn shortfalls(
    e: EvidenceView,
    list: Seq<CorrelatedInvocationView>,
    keys: Seq<UnitKeyView>,
) -> nat
    decreases keys.len(),
{
    if keys.len() == 0 {
        0
    } else {
        shortfalls(e, list, keys.drop_last()) + shortfall(e, list, keys.last())
    }
}

/// Correlated invocations with the keys that they are ordered by.
pub open spec fn merge_keyed(list: Seq<CorrelatedInvocationView>) -> Seq<
    (Seq<char>, CorrelatedInvocationView),
> {
    Seq::new(list.len(), |i: int| (list[i].invocation.started.merge_key, list[i]))
}

/// Whether an invocation compiled a part of a selected package.
pub open spec fn is_selected(
    known: Seq<CanonicalPathView>,
    packages: Seq<AuditPackageView>,
    invocation: InvocationView,
) -> bool {
    invocation.started.manifest_dir is Some && any_where(
        packages,
        |package: AuditPackageView|
            selected_ids(packages).contains(package.id) && canonical_key(known, package.root)
                == canonical_key(known, invocation.started.manifest_dir->0),
    )
}

/// The invocations that compiled parts of selected packages.
pub open spec fn kept_invocations(
    known: Seq<CanonicalPathView>,
    packages: Seq<AuditPackageView>,
    invocations: Seq<InvocationView>,
) -> Seq<InvocationView> {
    collected(
        invocations,
        |invocation: InvocationView|
            if is_selected(known, packages, invocation) {
                Some(invocation)
            } else {
                None
            },
    )
}

/// What the invocations are held against.
pub open spec fn evidence_of(
    places: LocationsView,
    cargo: CargoRunView,
    packages: Seq<AuditPackageView>,
    units: Seq<ExpectedUnitView>,
) -> EvidenceView {
    let selected = selected_ids(packages);
    EvidenceView {
        places,
        artifacts: collected(
            cargo.artifacts,
            |artifact: CargoArtifactView|
                if selected.contains(artifact.package_id) {
                    Some(artifact)
                } else {
                    None
                },
        ),
        failures: cargo.failures,
        packages,
        planned: units,
        units: collected(units, selected_unit(places.canonical, selected)),
    }
}

/// All that is amiss between the invocations and the evidence.
pub open spec fn correlation_errors(e: EvidenceView, kept: Seq<InvocationView>) -> Set<Seq<char>> {
    let list = pairs(e, kept);
    image(list, pair_error()).union(
        image(numbered_artifacts(e.artifacts), unclaimed_error(e, kept)),
    ).union(image(list, unexpected_error(e))).union(image(e.units, count_error(e, list)))
}

/// The invocations held against the evidence.
pub open spec fn correlation_of(e: EvidenceView, kept: Seq<InvocationView>) -> CorrelationView {
    let list = pairs(e, kept);
    let open = count_where(
        numbered_artifacts(e.artifacts),
        |entry: (usize, CargoArtifactView)| unclaimed(e, kept, entry.0),
    );
    CorrelationView {
        expected: e.units.len() as usize,
        correlated: count_where(list, accounted_for(e, list)) as usize,
        invocations: second(
            stable_sorted::<String, CorrelatedInvocation>(
                merge_keyed(Seq::new(list.len(), |i: int| settled(e, list, list[i]))),
            ),
        ),
        errors: ascending::<String>(correlation_errors(e, kept)),
        missing_invoked_sidecars: (open + shortfalls(
            e,
            list,
            ascending::<UnitKey>(e.units.to_set()),
        )) as usize,
    }
}

fn keeps(
    places: &Locations,
    packages: &Vec<AuditPackage>,
    selected: &SortedSet<String>,
    invocation: &Invocation,
) -> (result: bool)
    requires
        selected.wf(),
        selected.deep_view() == selected_ids(packages.deep_view()),
    ensures
        result == is_selected(
            places.deep_view().canonical,
            packages.deep_view(),
            invocation.deep_view(),
        ),
{
    let directory = match &invocation.started.manifest_dir {
        Some(path) => canonical_place(places, path.as_str()),
        None => {
            return false;
        },
    };
    let ghost known = places.deep_view().canonical;
    let ghost all = packages.deep_view();
    let ghost told = invocation.deep_view().started.manifest_dir->0;
    let ghost property = |package: AuditPackageView|
        selected_ids(all).contains(package.id) && canonical_key(known, package.root)
            == canonical_key(known, told);
    let test = |package: &AuditPackage| -> (result: bool)
        ensures
            result == property(package.deep_view()),
    {
        selected.contains(&package.id) && same_key(
            &canonical_place(places, package.root.as_str()),
            &directory,
        )
    };
    any_item(packages, test, Ghost(property))
}

fn keep_invocations(
    places: &Locations,
    packages: &Vec<AuditPackage>,
    selected: &SortedSet<String>,
    invocations: Vec<Invocation>,
) -> (kept: Vec<Invocation>)
    requires
        selected.wf(),
        selected.deep_view() == selected_ids(packages.deep_view()),
    ensures
        kept.deep_view() == kept_invocations(
            places.deep_view().canonical,
            packages.deep_view(),
            invocations.deep_view(),
        ),
{
    let ghost known = places.deep_view().canonical;
    let ghost all = invocations.deep_view();
    let ghost f = |invocation: InvocationView|
        if is_selected(known, packages.deep_view(), invocation) {
            Some(invocation)
        } else {
            None
        };
    let mut kept: Vec<Invocation> = no_items();
    proof {
        assert(all.take(0) =~= Seq::<InvocationView>::empty());
    }
    for invocation in it: invocations
        invariant
            selected.wf(),
            selected.deep_view() == selected_ids(packages.deep_view()),
            known == places.deep_view().canonical,
            f == |invocation: InvocationView|
                if is_selected(known, packages.deep_view(), invocation) {
                    Some(invocation)
                } else {
                    None
                },
            all.len() == it.seq().len(),
            forall|i: int| 0 <= i < all.len() ==> #[trigger] all[i] == it.seq()[i].deep_view(),
            kept.deep_view() == collected(all.take(it.index() as int), f),
    {
        proof {
            assert(all[it.index() as int] == invocation.deep_view());
            lemma_collected_step(all, f, it.index() as int);
        }
        if keeps(places, packages, selected, &invocation) {
            push_item(&mut kept, invocation);
        }
    }
    proof {
        assert(all.take(all.len() as int) =~= all);
    }
    kept
}

fn find_identity_issue(kept: &Vec<Invocation>, invocation: &Invocation) -> (issue: Option<String>)
    ensures
        issue.deep_view() == identity_issue(kept.deep_view(), invocation.deep_view()),
{
    let ghost told = invocation.deep_view();
    let ghost same_id = |other: InvocationView| other.id == told.id;
    let ghost same_key = |other: InvocationView| other.started.merge_key == told.started.merge_key;
    let test_id = |other: &Invocation| -> (result: bool)
        ensures
            result == same_id(other.deep_view()),
    {
        same(other.id.0.as_str(), invocation.id.0.as_str())
    };
    let test_key = |other: &Invocation| -> (result: bool)
        ensures
            result == same_key(other.deep_view()),
    {
        same(other.started.merge_key.0.as_str(), invocation.started.merge_key.0.as_str())
    };
    let mut issue: Option<String> = None;
    if count_items(kept, test_id, Ghost(same_id)) > 1 {
        let mut text = "duplicate selected compiler invocation ID ".to_owned();
        text.append(invocation.id.0.as_str());
        issue = Some(text);
    }
    if count_items(kept, test_key, Ghost(same_key)) > 1 {
        let mut text = "duplicate selected compiler merge key ".to_owned();
        text.append(invocation.started.merge_key.0.as_str());
        issue = add_issue(issue, text.as_str());
    }
    issue
}

fn find_artifact(e: &Evidence, started: &InvocationStarted) -> (found: (Option<usize>, usize))
    ensures
        found.0 == sole_artifact(e.deep_view(), started.deep_view()),
        found.0 matches Some(at) ==> at < e.artifacts.len(),
        found.1 == count_where(
            e.deep_view().artifacts,
            fitting(e.deep_view().places.canonical, started.deep_view()),
        ),
{
    let ghost property = fitting(e.deep_view().places.canonical, started.deep_view());
    let test = |artifact: &CargoArtifact| -> (result: bool)
        ensures
            result == property(artifact.deep_view()),
    {
        artifact_matches(e.places, started, artifact)
    };
    let matches = count_items(&e.artifacts, test, Ghost(property));
    if matches == 1 {
        (find_last(&e.artifacts, test, Ghost(property)), matches)
    } else {
        (None, matches)
    }
}

fn pair_one(
    e: &Evidence,
    invocation: Invocation,
    identity: Option<String>,
    used: &SortedSet<usize>,
    found: (Option<usize>, usize),
) -> (pair: CorrelatedInvocation)
    requires
        used.wf(),
        found.0 == sole_artifact(e.deep_view(), invocation.deep_view().started),
        found.0 matches Some(at) ==> at < e.artifacts.len(),
        found.1 == count_where(
            e.deep_view().artifacts,
            fitting(e.deep_view().places.canonical, invocation.deep_view().started),
        ),
    ensures
        pair.deep_view() == pairing(
            e.deep_view(),
            invocation.deep_view(),
            identity.deep_view(),
            used.deep_view(),
        ),
{
    let mut issue = identity;
    match found.0 {
        Some(at) => {
            let artifact = &e.artifacts[at];
            proof {
                assert(e.deep_view().artifacts[at as int] == artifact.deep_view());
            }
            if used.contains(&at) {
                let mut text = "multiple compiler sidecars match Cargo artifact ".to_owned();
                text.append(artifact.package_id.as_str());
                text.append(":");
                text.append(artifact.target_name.as_str());
                issue = add_issue(issue, text.as_str());
            }
            let unit = UnitKey::from_artifact(e.places, artifact, &invocation.started);
            if !contains_unit(&e.units, &unit) {
                let mut text = "Cargo artifact is absent from the selected unit graph: ".to_owned();
                text.append(
                    unit.render(canonical(e.places, artifact.target_source.as_str()).as_str()).as_str(),
                );
                issue = add_issue(issue, text.as_str());
            }
            let target = target_report(artifact, &invocation.started);
            CorrelatedInvocation {
                invocation,
                target: Some(target),
                cargo_features: Some(copy_list(&artifact.features)),
                cargo_profile: Some(artifact.profile.clone()),
                issue,
            }
        },
        None => {
            let target = failed_target(e.places, &invocation.started, e.failures, e.packages);
            let cargo_features = match &target {
                Some(target) => expected_features_for_target(
                    e.places,
                    &e.units,
                    target,
                    &invocation.started,
                ),
                None => None,
            };
            let text = if found.1 == 0 {
                if target.is_some() && !invocation.finished.rustc_success {
                    "failed rustc invocation has no Cargo artifact".to_owned()
                } else {
                    "compiler sidecar does not match a unique Cargo artifact".to_owned()
                }
            } else {
                let mut text = "compiler sidecar ambiguously matches ".to_owned();
                text.append(decimal_text(found.1 as u128).as_str());
                text.append(" Cargo artifacts");
                text
            };
            issue = add_issue(issue, text.as_str());
            CorrelatedInvocation { invocation, target, cargo_features, cargo_profile: None, issue }
        },
    }
}

fn contains_unit(units: &Vec<UnitKey>, key: &UnitKey) -> (found: bool)
    ensures
        found == units.deep_view().contains(key.deep_view()),
{
    let ghost all = units.deep_view();
    let ghost wanted = key.deep_view();
    let ghost property = |unit: UnitKeyView| unit == wanted;
    let test = |unit: &UnitKey| -> (result: bool)
        ensures
            result == property(unit.deep_view()),
    {
        same_unit(unit, key)
    };
    let found = any_item(units, test, Ghost(property));
    proof {
        if found {
            let i = choose|i: int| 0 <= i < all.len() && property(#[trigger] all[i]);
            assert(all[i] == wanted);
        } else if all.contains(wanted) {
            let i = choose|i: int| 0 <= i < all.len() && all[i] == wanted;
            assert(property(all[i]));
        }
    }
    found
}

fn same_unit(left: &UnitKey, right: &UnitKey) -> (result: bool)
    ensures
        result == (left.deep_view() == right.deep_view()),
{
    proof {
        UnitKey::irreflexive(left.deep_view());
    }
    match left.rank(right) {
        Rank::Equal => true,
        _ => false,
    }
}

fn pair_all(e: &Evidence, kept: Vec<Invocation>) -> (result: (
    Vec<CorrelatedInvocation>,
    SortedSet<usize>,
))
    ensures
        result.0.deep_view() == pairs(e.deep_view(), kept.deep_view()),
        result.1.wf(),
        result.1.deep_view() == image(kept.deep_view(), claim(e.deep_view())),
{
    let ghost all = kept.deep_view();
    let ghost view = e.deep_view();
    let ghost f = claim(view);
    let mut identities: Vec<Option<String>> = Vec::new();
    let mut index: usize = 0;
    while index < kept.len()
        invariant
            all == kept.deep_view(),
            index <= all.len(),
            identities.len() == index,
            forall|i: int|
                0 <= i < index ==> (#[trigger] identities[i]).deep_view() == identity_issue(
                    all,
                    all[i],
                ),
        decreases all.len() - index,
    {
        proof {
            assert(all[index as int] == kept[index as int].deep_view());
        }
        let issue = find_identity_issue(&kept, &kept[index]);
        identities.push(issue);
        index = index + 1;
    }
    let mut list: Vec<CorrelatedInvocation> = no_items();
    let mut used: SortedSet<usize> = SortedSet::new();
    let mut place: usize = 0;
    let total: usize = kept.len();
    proof {
        lemma_image_ends(all, f);
    }
    for invocation in it: kept
        invariant
            view == e.deep_view(),
            f == claim(view),
            all.len() == total,
            identities.len() == total,
            all.len() == it.seq().len(),
            forall|i: int| 0 <= i < all.len() ==> #[trigger] all[i] == it.seq()[i].deep_view(),
            forall|i: int|
                0 <= i < all.len() ==> (#[trigger] identities[i]).deep_view() == identity_issue(
                    all,
                    all[i],
                ),
            place == it.index(),
            used.wf(),
            used.deep_view() == image(all.take(it.index() as int), f),
            list.deep_view() =~= pairs(view, all).take(it.index() as int),
    {
        let ghost at = it.index() as int;
        proof {
            assert(all[at] == invocation.deep_view());
            lemma_image_step(all, f, at);
        }
        let found = find_artifact(e, &invocation.started);
        let identity = identities[place].clone();
        proof {
            assert(identity.deep_view() == identity_issue(all, all[at]));
        }
        let pair = pair_one(e, invocation, identity, &used, found);
        proof {
            assert(pair.deep_view() == paired(view, all, at));
        }
        push_item(&mut list, pair);
        if let Some(claimed) = found.0 {
            used.insert(claimed);
        }
        place = place + 1;
    }
    proof {
        lemma_image_ends(all, f);
        assert(list.deep_view() =~= pairs(view, all));
    }
    (list, used)
}

fn count_planned(e: &Evidence, key: &UnitKey) -> (count: usize)
    ensures
        count == occurrences(e.deep_view().units, key.deep_view()),
{
    let ghost property = equal_to(key.deep_view());
    let test = |unit: &UnitKey| -> (result: bool)
        ensures
            result == property(unit.deep_view()),
    {
        same_unit(unit, key)
    };
    count_items(&e.units, test, Ghost(property))
}

fn count_observed(e: &Evidence, list: &Vec<CorrelatedInvocation>, key: &UnitKey) -> (count: usize)
    ensures
        count == observed(e.deep_view(), list.deep_view(), key.deep_view()),
{
    let ghost property = compiled(e.deep_view(), key.deep_view());
    let test = |pair: &CorrelatedInvocation| -> (result: bool)
        ensures
            result == property(pair.deep_view()),
    {
        match UnitKey::from_correlated(e.places, pair) {
            Some(unit) => same_unit(&unit, key),
            None => false,
        }
    };
    count_items(list, test, Ghost(property))
}

fn find_planned_source(e: &Evidence, key: &UnitKey) -> (source: String)
    ensures
        source@ == planned_source(e.deep_view(), key.deep_view()),
{
    let ghost known = e.deep_view().places.canonical;
    let ghost wanted = key.deep_view();
    let ghost property = |unit: ExpectedUnitView| planned_key(known, unit) == wanted;
    let test = |unit: &ExpectedUnit| -> (result: bool)
        ensures
            result == property(unit.deep_view()),
    {
        same_unit(&UnitKey::from_expected(e.places, unit), key)
    };
    match find_first(e.planned, test, Ghost(property)) {
        Some(unit) => canonical(e.places, unit.target_source.as_str()),
        None => no_text(),
    }
}

fn count_issue_text(e: &Evidence, planned: usize, seen: usize, key: &UnitKey) -> (text: String)
    ensures
        text@ == count_issue(
            planned as nat,
            seen as nat,
            key.deep_view(),
            planned_source(e.deep_view(), key.deep_view()),
        ),
{
    let mut text = "selected Cargo unit graph expects ".to_owned();
    text.append(decimal_text(planned as u128).as_str());
    text.append(" compiler sidecar(s), observed ");
    text.append(decimal_text(seen as u128).as_str());
    text.append(": ");
    text.append(key.render(find_planned_source(e, key).as_str()).as_str());
    text
}

/// What is amiss with the unit of an invocation.
fn settle_issue(e: &Evidence, list: &Vec<CorrelatedInvocation>, pair: &CorrelatedInvocation) -> (
    issue: Option<String>)
    ensures
        issue.deep_view() == settled(e.deep_view(), list.deep_view(), pair.deep_view()).issue,
{
    let issue = pair.issue.clone();
    match UnitKey::from_correlated(e.places, pair) {
        None => issue,
        Some(key) => if !contains_unit(&e.units, &key) {
            add_issue(issue, "compiler sidecar mapped outside the selected unit graph")
        } else {
            let planned = count_planned(e, &key);
            let seen = count_observed(e, list, &key);
            if seen != planned {
                add_issue(issue, count_issue_text(e, planned, seen, &key).as_str())
            } else {
                issue
            }
        },
    }
}

/// Puts the final issues to the invocations, and orders them.
fn settle(e: &Evidence, list: Vec<CorrelatedInvocation>) -> (sorted: Vec<CorrelatedInvocation>)
    ensures
        sorted.deep_view() == second(
            stable_sorted::<String, CorrelatedInvocation>(
                merge_keyed(
                    Seq::new(
                        list.deep_view().len(),
                        |i: int| settled(e.deep_view(), list.deep_view(), list.deep_view()[i]),
                    ),
                ),
            ),
        ),
{
    let ghost all = list.deep_view();
    let ghost view = e.deep_view();
    let mut issues: Vec<Option<String>> = Vec::new();
    let mut index: usize = 0;
    while index < list.len()
        invariant
            view == e.deep_view(),
            all == list.deep_view(),
            index <= all.len(),
            issues.len() == index,
            forall|i: int|
                0 <= i < index ==> (#[trigger] issues[i]).deep_view() == settled(
                    view,
                    all,
                    all[i],
                ).issue,
        decreases all.len() - index,
    {
        proof {
            assert(all[index as int] == list[index as int].deep_view());
        }
        let issue = settle_issue(e, &list, &list[index]);
        issues.push(issue);
        index = index + 1;
    }
    let ghost wanted = merge_keyed(Seq::new(all.len(), |i: int| settled(view, all, all[i])));
    let mut entries: Vec<(String, CorrelatedInvocation)> = no_items();
    let mut place: usize = 0;
    for pair in it: list
        invariant
            view == e.deep_view(),
            wanted == merge_keyed(Seq::new(all.len(), |i: int| settled(view, all, all[i]))),
            issues.len() == all.len(),
            all.len() == it.seq().len(),
            forall|i: int| 0 <= i < all.len() ==> #[trigger] all[i] == it.seq()[i].deep_view(),
            forall|i: int|
                0 <= i < all.len() ==> (#[trigger] issues[i]).deep_view() == settled(
                    view,
                    all,
                    all[i],
                ).issue,
            place == it.index(),
            entries.deep_view() =~= wanted.take(it.index() as int),
    {
        proof {
            assert(all[it.index() as int] == pair.deep_view());
        }
        let issue = issues[place].clone();
        proof {
            assert(issue.deep_view() == settled(view, all, all[place as int]).issue);
        }
        let key = pair.invocation.started.merge_key.0.clone();
        let settled_pair = CorrelatedInvocation {
            invocation: pair.invocation,
            target: pair.target,
            cargo_features: pair.cargo_features,
            cargo_profile: pair.cargo_profile,
            issue,
        };
        proof {
            assert(settled_pair.deep_view() == settled(view, all, all[place as int]));
            assert(wanted[place as int] == (key@, settled_pair.deep_view()));
        }
        push_item(&mut entries, (key, settled_pair));
        place = place + 1;
    }
    proof {
        assert(entries.deep_view() =~= wanted);
    }
    take_second(stable_sort(entries))
}

fn count_accounted_for(e: &Evidence, list: &Vec<CorrelatedInvocation>) -> (count: usize)
    ensures
        count == count_where(list.deep_view(), accounted_for(e.deep_view(), list.deep_view())),
{
    let ghost property = accounted_for(e.deep_view(), list.deep_view());
    let test = |pair: &CorrelatedInvocation| -> (result: bool)
        ensures
            result == property(pair.deep_view()),
    {
        match UnitKey::from_correlated(e.places, pair) {
            Some(key) => contains_unit(&e.units, &key) && count_observed(e, list, &key)
                == count_planned(e, &key),
            None => false,
        }
    };
    count_items(list, test, Ghost(property))
}

fn unclaimed_text(artifact: &CargoArtifact) -> (text: String)
    ensures
        text@ == "Cargo artifact has no matching compiler sidecar: "@
            + artifact.deep_view().package_id + ":"@ + artifact.deep_view().target_name + " ("@ + (
        if artifact.fresh {
            "fresh"@
        } else {
            "built"@
        }) + ")"@,
{
    let mut text = "Cargo artifact has no matching compiler sidecar: ".to_owned();
    text.append(artifact.package_id.as_str());
    text.append(":");
    text.append(artifact.target_name.as_str());
    text.append(" (");
    text.append(
        if artifact.fresh {
            "fresh"
        } else {
            "built"
        },
    );
    text.append(")");
    text
}

/// Counts the artifacts that no invocation compiled, and says of each which it is.
fn list_unclaimed(
    e: &Evidence,
    used: &SortedSet<usize>,
    errors: &mut SortedSet<String>,
    Ghost(kept): Ghost<Seq<InvocationView>>,
) -> (count: usize)
    requires
        used.wf(),
        old(errors).wf(),
        used.deep_view() == image(kept, claim(e.deep_view())),
    ensures
        final(errors).wf(),
        final(errors).deep_view() == old(errors).deep_view().union(
            image(
                numbered_artifacts(e.deep_view().artifacts),
                unclaimed_error(e.deep_view(), kept),
            ),
        ),
        count == count_where(
            numbered_artifacts(e.deep_view().artifacts),
            |entry: (usize, CargoArtifactView)| unclaimed(e.deep_view(), kept, entry.0),
        ),
        count <= e.artifacts.len(),
{
    let ghost view = e.deep_view();
    let ghost before = errors.deep_view();
    let ghost all = numbered_artifacts(view.artifacts);
    let ghost f = unclaimed_error(view, kept);
    let ghost open = |entry: (usize, CargoArtifactView)| unclaimed(view, kept, entry.0);
    let mut count: usize = 0;
    let mut index: usize = 0;
    proof {
        lemma_image_ends(all, f);
        assert(all.take(0) =~= Seq::<(usize, CargoArtifactView)>::empty());
        assert(before.union(Set::empty()) =~= before);
    }
    while index < e.artifacts.len()
        invariant
            view == e.deep_view(),
            all == numbered_artifacts(view.artifacts),
            f == unclaimed_error(view, kept),
            open == |entry: (usize, CargoArtifactView)| unclaimed(view, kept, entry.0),
            used.wf(),
            used.deep_view() == image(kept, claim(view)),
            errors.wf(),
            index <= e.artifacts.len(),
            all.len() == e.artifacts.len(),
            count <= index,
            count == count_where(all.take(index as int), open),
            errors.deep_view() == before.union(image(all.take(index as int), f)),
        decreases e.artifacts.len() - index,
    {
        let ghost now = image(all.take(index as int), f);
        proof {
            lemma_image_step(all, f, index as int);
            lemma_count_step(all, open, index as int);
            assert(view.artifacts[index as int] == e.artifacts[index as int].deep_view());
            assert(all[index as int] == (index, e.artifacts[index as int].deep_view()));
        }
        if !used.contains(&index) {
            count = count + 1;
            let text = unclaimed_text(&e.artifacts[index]);
            let ghost said = text@;
            errors.insert(text);
            proof {
                assert(before.union(now).insert(said) =~= before.union(now.insert(said)));
            }
        }
        index = index + 1;
    }
    proof {
        lemma_image_ends(all, f);
        assert(all.take(all.len() as int) =~= all);
    }
    count
}

/// Says what is amiss with single invocations.
fn list_pair_errors(list: &Vec<CorrelatedInvocation>) -> (errors: SortedSet<String>)
    ensures
        errors.wf(),
        errors.deep_view() == image(list.deep_view(), pair_error()),
{
    let ghost f = pair_error();
    let pick = |pair: &CorrelatedInvocation| -> (error: Option<String>)
        ensures
            error.deep_view() == f(pair.deep_view()),
    {
        match &pair.issue {
            Some(issue) => {
                let mut text = pair.invocation.started.merge_key.0.clone();
                text.append(": ");
                text.append(issue.as_str());
                Some(text)
            },
            None => None,
        }
    };
    collect_set(list, pick, Ghost(f))
}

/// Says which units were mapped to and not planned.
fn list_unexpected(e: &Evidence, list: &Vec<CorrelatedInvocation>) -> (errors: SortedSet<String>)
    ensures
        errors.wf(),
        errors.deep_view() == image(list.deep_view(), unexpected_error(e.deep_view())),
{
    let ghost f = unexpected_error(e.deep_view());
    let pick = |pair: &CorrelatedInvocation| -> (error: Option<String>)
        ensures
            error.deep_view() == f(pair.deep_view()),
    {
        match (UnitKey::from_correlated(e.places, pair), &pair.target) {
            (Some(key), Some(target)) => if contains_unit(&e.units, &key) {
                None
            } else {
                let source = canonical(e.places, target.source.as_str());
                let mut text = "compiler sidecar mapped to an unexpected Cargo unit: ".to_owned();
                text.append(key.render(source.as_str()).as_str());
                Some(text)
            },
            _ => None,
        }
    };
    collect_set(list, pick, Ghost(f))
}

/// Says which planned units were compiled more or less often than planned.
fn list_miscounted(e: &Evidence, list: &Vec<CorrelatedInvocation>) -> (errors: SortedSet<String>)
    ensures
        errors.wf(),
        errors.deep_view() == image(
            e.deep_view().units,
            count_error(e.deep_view(), list.deep_view()),
        ),
{
    let ghost f = count_error(e.deep_view(), list.deep_view());
    let pick = |key: &UnitKey| -> (error: Option<String>)
        ensures
            error.deep_view() == f(key.deep_view()),
    {
        let planned = count_planned(e, key);
        let seen = count_observed(e, list, key);
        if seen != planned {
            Some(count_issue_text(e, planned, seen, key))
        } else {
            None
        }
    };
    collect_set(&e.units, pick, Ghost(f))
}

/// Adds texts to others.
fn add_texts(errors: &mut SortedSet<String>, more: &SortedSet<String>)
    requires
        old(errors).wf(),
        more.wf(),
    ensures
        final(errors).wf(),
        final(errors).deep_view() == old(errors).deep_view().union(more.deep_view()),
{
    let ghost before = errors.deep_view();
    let ghost all = more.seq();
    let mut index: usize = 0;
    proof {
        assert(all.take(0).to_set() =~= Set::empty());
        assert(before.union(all.take(0).to_set()) =~= before);
    }
    while index < more.len()
        invariant
            more.wf(),
            all == more.seq(),
            errors.wf(),
            index <= all.len(),
            errors.deep_view() == before.union(all.take(index as int).to_set()),
        decreases all.len() - index,
    {
        let text = more.get(index).clone();
        proof {
            lemma_prefix_set(all, index as int);
        }
        let ghost said = text@;
        errors.insert(text);
        proof {
            assert(before.union(all.take(index as int).to_set()).insert(said) =~= before.union(
                all.take(index as int).to_set().insert(said),
            ));
        }
        index = index + 1;
    }
    proof {
        assert(all.take(all.len() as int) =~= all);
    }
}

/// The shortfalls of some different units are no more than the units planned among them.
proof fn lemma_shortfalls_bound(
    e: EvidenceView,
    list: Seq<CorrelatedInvocationView>,
    keys: Seq<UnitKeyView>,
)
    requires
        keys.no_duplicates(),
    ensures
        shortfalls(e, list, keys) <= count_where(e.units, |unit: UnitKeyView| keys.contains(unit)),
        shortfalls(e, list, keys) <= e.units.len(),
    decreases keys.len(),
{
    lemma_count_bound(e.units, |unit: UnitKeyView| keys.contains(unit));
    if keys.len() > 0 {
        let rest = keys.drop_last();
        let last = keys.last();
        lemma_shortfalls_bound(e, list, rest);
        assert(!rest.contains(last)) by {
            if rest.contains(last) {
                let i = choose|i: int| 0 <= i < rest.len() && rest[i] == last;
                assert(keys[i] == keys[keys.len() - 1]);
            }
        }
        assert(keys =~= rest.push(last));
        lemma_count_split(e.units, rest, last, keys);
    }
}

/// The units among some keys and one more.
proof fn lemma_count_split(
    units: Seq<UnitKeyView>,
    rest: Seq<UnitKeyView>,
    last: UnitKeyView,
    keys: Seq<UnitKeyView>,
)
    requires
        keys == rest.push(last),
        !rest.contains(last),
    ensures
        count_where(units, |unit: UnitKeyView| keys.contains(unit)) == count_where(
            units,
            |unit: UnitKeyView| rest.contains(unit),
        ) + occurrences(units, last),
    decreases units.len(),
{
    if units.len() > 0 {
        lemma_count_split(units.drop_last(), rest, last, keys);
        let unit = units.last();
        assert(keys.contains(unit) == (rest.contains(unit) || unit == last)) by {
            if rest.contains(unit) {
                let i = choose|i: int| 0 <= i < rest.len() && rest[i] == unit;
                assert(keys[i] == unit);
            }
            assert(keys[keys.len() - 1] == last);
            if keys.contains(unit) && unit != last {
                let i = choose|i: int| 0 <= i < keys.len() && keys[i] == unit;
                assert(rest[i] == unit);
            }
        }
    }
}

fn unit_failed(e: &Evidence, key: &UnitKey) -> (result: bool)
    ensures
        result == any_where(
            e.deep_view().failures,
            failure_of_unit(e.deep_view().places.canonical, key.deep_view()),
        ),
{
    let ghost property = failure_of_unit(e.deep_view().places.canonical, key.deep_view());
    let test = |failure: &CargoFailure| -> (result: bool)
        ensures
            result == property(failure.deep_view()),
    {
        failure_matches_target(e.places, failure, key)
    };
    any_item(e.failures, test, Ghost(property))
}

/// Whether a failure is one of a unit.
pub fn failure_matches_target(places: &Locations, failure: &CargoFailure, target: &UnitKey) -> (
    result: bool)
    ensures
        result == failure_of_unit(places.deep_view().canonical, target.deep_view())(
            failure.deep_view(),
        ),
{
    same(failure.package_id.as_str(), target.package_id.as_str()) && same(
        failure.target_name.as_str(),
        target.name.as_str(),
    ) && same_key(
        &canonical_place(places, failure.target_source.as_str()),
        &target.source,
    ) && same_list(&sorted(&failure.target_kinds), &target.kinds) && same_list(
        &sorted(&failure.target_crate_types),
        &target.crate_types,
    )
}

/// Counts how often units that failed were compiled less often than planned.
fn count_missing(e: &Evidence, list: &Vec<CorrelatedInvocation>) -> (count: usize)
    ensures
        count == shortfalls(
            e.deep_view(),
            list.deep_view(),
            ascending::<UnitKey>(e.deep_view().units.to_set()),
        ),
        count <= e.units.len(),
{
    let ghost view = e.deep_view();
    let ghost all = list.deep_view();
    let ghost f = |unit: UnitKeyView| Some(unit);
    let pick = |unit: &UnitKey| -> (key: Option<UnitKey>)
        ensures
            key.deep_view() == f(unit.deep_view()),
    {
        Some(unit.clone())
    };
    let keys = collect_set(&e.units, pick, Ghost(f));
    let ghost seq = keys.seq();
    proof {
        assert(image(view.units, f) =~= view.units.to_set()) by {
            assert forall|unit: UnitKeyView| #[trigger]
                image(view.units, f).contains(unit) == view.units.to_set().contains(unit) by {
                if view.units.contains(unit) {
                    let i = choose|i: int| 0 <= i < view.units.len() && view.units[i] == unit;
                    assert(f(view.units[i]) == Some(unit));
                }
            }
        }
        keys.lemma_seq();
        lemma_shortfalls_bound(view, all, seq);
        assert(view.units.len() == e.units.len());
    }
    let mut count: usize = 0;
    let mut index: usize = 0;
    proof {
        assert(seq.take(0) =~= Seq::<UnitKeyView>::empty());
    }
    while index < keys.len()
        invariant
            view == e.deep_view(),
            all == list.deep_view(),
            keys.wf(),
            seq == keys.seq(),
            seq.no_duplicates(),
            view.units.len() == e.units.len(),
            index <= seq.len(),
            count == shortfalls(view, all, seq.take(index as int)),
        decreases seq.len() - index,
    {
        let key = keys.get(index);
        let ghost next = seq.take(index as int + 1);
        proof {
            assert(next.drop_last() =~= seq.take(index as int));
            assert(next.last() == key.deep_view());
            lemma_shortfalls_bound(view, all, next);
        }
        if unit_failed(e, key) {
            let planned = count_planned(e, key);
            let seen = count_observed(e, list, key);
            if planned > seen {
                count = count + (planned - seen);
            }
        }
        index = index + 1;
    }
    proof {
        assert(seq.take(seq.len() as int) =~= seq);
    }
    count
}

/// Holds the invocations of a run against what Cargo planned and built of the selected packages.
pub fn correlate(
    invocations: Vec<Invocation>,
    cargo: &CargoRun,
    inventory: &AuditInventory,
    compiler_profile: &CompilerProfile,
    places: &Locations,
) -> (correlation: Correlation)
    requires
        cargo.artifacts.len() + compiler_profile.expected_units.len() <= usize::MAX,
    ensures
        correlation.deep_view() == correlation_of(
            evidence_of(
                places.deep_view(),
                cargo.deep_view(),
                inventory.packages.deep_view(),
                compiler_profile.deep_view().expected_units,
            ),
            kept_invocations(
                places.deep_view().canonical,
                inventory.packages.deep_view(),
                invocations.deep_view(),
            ),
        ),
{
    let selected = inventory.selected_package_ids();
    let ghost known = places.deep_view().canonical;
    let ghost chosen = selected.deep_view();
    let ghost f = |artifact: CargoArtifactView|
        if chosen.contains(artifact.package_id) {
            Some(artifact)
        } else {
            None
        };
    let pick = |artifact: &CargoArtifact| -> (kept: Option<CargoArtifact>)
        ensures
            kept.deep_view() == f(artifact.deep_view()),
    {
        if selected.contains(&artifact.package_id) {
            Some(artifact.clone())
        } else {
            None
        }
    };
    let artifacts = collect_items(&cargo.artifacts, pick, Ghost(f));
    proof {
        lemma_collected_shorter(cargo.deep_view().artifacts, f);
        assert(artifacts.len() == artifacts.deep_view().len());
        assert(cargo.artifacts.len() == cargo.deep_view().artifacts.len());
    }
    let unit_keys = selected_units(places, &compiler_profile.expected_units, &selected);
    let e = Evidence {
        places,
        artifacts,
        failures: &cargo.failures,
        packages: &inventory.packages,
        planned: &compiler_profile.expected_units,
        units: unit_keys,
    };
    let ghost view = e.deep_view();
    proof {
        assert(view == evidence_of(
            places.deep_view(),
            cargo.deep_view(),
            inventory.packages.deep_view(),
            compiler_profile.deep_view().expected_units,
        ));
    }
    let kept = keep_invocations(places, &inventory.packages, &selected, invocations);
    let ghost held = kept.deep_view();
    let (list, used) = pair_all(&e, kept);
    let ghost all = list.deep_view();
    let mut errors = list_pair_errors(&list);
    let unclaimed_count = list_unclaimed(&e, &used, &mut errors, Ghost(held));
    let unexpected = list_unexpected(&e, &list);
    add_texts(&mut errors, &unexpected);
    let miscounted = list_miscounted(&e, &list);
    add_texts(&mut errors, &miscounted);
    proof {
        assert(errors.deep_view() =~= correlation_errors(view, held));
        errors.lemma_seq();
    }
    let missing = count_missing(&e, &list);
    let correlated = count_accounted_for(&e, &list);
    let expected = e.units.len();
    let correlation = Correlation {
        expected,
        correlated,
        invocations: settle(&e, list),
        errors: errors.into_vec(),
        missing_invoked_sidecars: unclaimed_count + missing,
    };
    proof {
        assert(correlation.deep_view() =~= correlation_of(view, held));
    }
    correlation
}

/// An invocation that is left without an issue was accounted for: its unit was planned, and was
/// compiled as often as planned.
pub proof fn law_issue_free_invocations_are_accounted_for(
    e: EvidenceView,
    list: Seq<CorrelatedInvocationView>,
    pair: CorrelatedInvocationView,
)
    requires
        correlated_key(e.places.canonical, pair) is Some,
        settled(e, list, pair).issue is None,
    ensures
        accounted_for(e, list)(pair),
{
}

/// An invocation that shares its identity with another is never left without an issue.
pub proof fn law_repeated_identities_are_issues(e: EvidenceView, kept: Seq<InvocationView>, i: int, j: int)
    requires
        0 <= i < kept.len(),
        0 <= j < kept.len(),
        i != j,
        kept[i].id == kept[j].id,
    ensures
        paired(e, kept, i).issue is Some,
        settled(e, pairs(e, kept), paired(e, kept, i)).issue is Some,
{
    let wanted = |other: InvocationView| other.id == kept[i].id;
    if i < j {
        lemma_two_counted(kept, wanted, i, j);
    } else {
        lemma_two_counted(kept, wanted, j, i);
    }
}

/// Two places with a property count at least twice.
proof fn lemma_two_counted<A>(s: Seq<A>, property: spec_fn(A) -> bool, i: int, j: int)
    requires
        0 <= i < j < s.len(),
        property(s[i]),
        property(s[j]),
    ensures
        count_where(s, property) >= 2,
    decreases s.len(),
{
    let head = s.drop_last();
    if j < s.len() - 1 {
        assert(head[i] == s[i] && head[j] == s[j]);
        lemma_two_counted(head, property, i, j);
    } else {
        lemma_counted_once(head, property, i);
    }
}

/// A place with a property counts.
proof fn lemma_counted_once<A>(s: Seq<A>, property: spec_fn(A) -> bool, i: int)
    requires
        0 <= i < s.len(),
        property(s[i]),
    ensures
        count_where(s, property) >= 1,
    decreases s.len(),
{
    if i < s.len() - 1 {
        assert(s.drop_last()[i] == s[i]);
        lemma_counted_once(s.drop_last(), property, i);
    }
}

} // verus!
