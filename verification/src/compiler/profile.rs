//! What Cargo plans to compile.

use vstd::prelude::*;

use crate::cli::{AuditCli, AuditCliView};
use crate::collections::{
    any_item, any_where, append_items, assemble, assembled, collect_items, collected, find_last,
    first_error, flattened, last_place, no_items, push_item, second, sorted_unique, stable_sort,
    stable_sorted, take_second, SortedMap,
};
use crate::compiler::effective_api::{
    GatedPackage, GatedPackageView, GatedTarget, GatedTargetView,
};
use crate::compiler::environment::{argument_if, profile_options, profile_options_of};
use crate::compiler::graph::{canonical_key, look_up_key, CanonicalPath, CanonicalPathView};
use crate::compiler::inventory::{
    AuditPackage, AuditPackageView, PackageTargetInfo, PackageTargetInfoView,
};
use crate::compiler::messages::in_order;
use crate::compiler::sidecar::reports;
use crate::paths::{
    list_path_key, parent, parent_of, path_below, path_key, same_key, strip_base, PathKey,
};
use crate::text::{debug_text, decimal, decimal_text, list_contains, quoted, same};

verus! {

/// A unit that Cargo plans to compile.
#[derive(Debug, PartialEq, Eq)]
pub struct ExpectedUnit {
    pub package_id: String,
    pub target_name: String,
    pub target_kinds: Vec<String>,
    pub target_crate_types: Vec<String>,
    pub target_source: String,
    pub features: Vec<String>,
    pub platform: Option<String>,
}

/// The model of [`ExpectedUnit`].
#[verifier::ext_equal]
pub struct ExpectedUnitView {
    pub package_id: Seq<char>,
    pub target_name: Seq<char>,
    pub target_kinds: Seq<Seq<char>>,
    pub target_crate_types: Seq<Seq<char>>,
    pub target_source: Seq<char>,
    pub features: Seq<Seq<char>>,
    pub platform: Option<Seq<char>>,
}

impl DeepView for ExpectedUnit {
    type V = ExpectedUnitView;

    open spec fn deep_view(&self) -> ExpectedUnitView {
        ExpectedUnitView {
            package_id: self.package_id.deep_view(),
            target_name: self.target_name.deep_view(),
            target_kinds: self.target_kinds.deep_view(),
            target_crate_types: self.target_crate_types.deep_view(),
            target_source: self.target_source.deep_view(),
            features: self.features.deep_view(),
            platform: self.platform.deep_view(),
        }
    }
}

impl Clone for ExpectedUnit {
    fn clone(&self) -> (copy: Self)
        ensures
            copy.deep_view() == self.deep_view(),
    {
        let copy = ExpectedUnit {
            package_id: self.package_id.clone(),
            target_name: self.target_name.clone(),
            target_kinds: self.target_kinds.clone(),
            target_crate_types: self.target_crate_types.clone(),
            target_source: self.target_source.clone(),
            features: self.features.clone(),
            platform: self.platform.clone(),
        };
        proof {
            assert(copy.target_kinds.deep_view() =~= self.target_kinds.deep_view());
            assert(copy.target_crate_types.deep_view() =~= self.target_crate_types.deep_view());
            assert(copy.features.deep_view() =~= self.features.deep_view());
            assert(copy.platform.deep_view() =~= self.platform.deep_view());
        }
        copy
    }
}

/// The target of a unit, as Cargo names it.
#[derive(Debug, PartialEq, Eq)]
pub struct RawUnitTarget {
    pub kind: Vec<String>,
    pub crate_types: Vec<String>,
    pub name: String,
    pub src_path: String,
}

/// The model of [`RawUnitTarget`].
#[verifier::ext_equal]
pub struct RawUnitTargetView {
    pub kind: Seq<Seq<char>>,
    pub crate_types: Seq<Seq<char>>,
    pub name: Seq<char>,
    pub src_path: Seq<char>,
}

impl DeepView for RawUnitTarget {
    type V = RawUnitTargetView;

    open spec fn deep_view(&self) -> RawUnitTargetView {
        RawUnitTargetView {
            kind: self.kind.deep_view(),
            crate_types: self.crate_types.deep_view(),
            name: self.name.deep_view(),
            src_path: self.src_path.deep_view(),
        }
    }
}

impl Clone for RawUnitTarget {
    fn clone(&self) -> (copy: Self)
        ensures
            copy.deep_view() == self.deep_view(),
    {
        let copy = RawUnitTarget {
            kind: self.kind.clone(),
            crate_types: self.crate_types.clone(),
            name: self.name.clone(),
            src_path: self.src_path.clone(),
        };
        proof {
            assert(copy.kind.deep_view() =~= self.kind.deep_view());
            assert(copy.crate_types.deep_view() =~= self.crate_types.deep_view());
        }
        copy
    }
}

/// A unit, as Cargo names it.
#[derive(Debug, PartialEq, Eq)]
pub struct RawUnit {
    pub pkg_id: String,
    pub target: RawUnitTarget,
    pub mode: String,
    pub features: Vec<String>,
    pub platform: Option<String>,
}

/// The model of [`RawUnit`].
#[verifier::ext_equal]
pub struct RawUnitView {
    pub pkg_id: Seq<char>,
    pub target: RawUnitTargetView,
    pub mode: Seq<char>,
    pub features: Seq<Seq<char>>,
    pub platform: Option<Seq<char>>,
}

impl DeepView for RawUnit {
    type V = RawUnitView;

    open spec fn deep_view(&self) -> RawUnitView {
        RawUnitView {
            pkg_id: self.pkg_id.deep_view(),
            target: self.target.deep_view(),
            mode: self.mode.deep_view(),
            features: self.features.deep_view(),
            platform: self.platform.deep_view(),
        }
    }
}

impl Clone for RawUnit {
    fn clone(&self) -> (copy: Self)
        ensures
            copy.deep_view() == self.deep_view(),
    {
        let copy = RawUnit {
            pkg_id: self.pkg_id.clone(),
            target: self.target.clone(),
            mode: self.mode.clone(),
            features: self.features.clone(),
            platform: self.platform.clone(),
        };
        proof {
            assert(copy.target.deep_view() =~= self.target.deep_view());
            assert(copy.features.deep_view() =~= self.features.deep_view());
            assert(copy.platform.deep_view() =~= self.platform.deep_view());
        }
        copy
    }
}

/// All units, as Cargo names them.
#[derive(Debug, PartialEq, Eq)]
pub struct UnitGraph {
    pub version: u32,
    pub units: Vec<RawUnit>,
}

/// The model of [`UnitGraph`].
#[verifier::ext_equal]
pub struct UnitGraphView {
    pub version: u32,
    pub units: Seq<RawUnitView>,
}

impl DeepView for UnitGraph {
    type V = UnitGraphView;

    open spec fn deep_view(&self) -> UnitGraphView {
        UnitGraphView {
            version: self.version,
            units: self.units.deep_view(),
        }
    }
}

impl Clone for UnitGraph {
    fn clone(&self) -> (copy: Self)
        ensures
            copy.deep_view() == self.deep_view(),
    {
        let copy = UnitGraph {
            version: self.version,
            units: self.units.clone(),
        };
        proof {
            assert(copy.units.deep_view() =~= self.units.deep_view());
        }
        copy
    }
}

/// A target of a package, as Cargo describes it.
#[derive(Debug, PartialEq, Eq)]
pub struct MetadataTarget {
    pub name: String,
    pub kinds: Vec<String>,
    pub crate_types: Vec<String>,
    pub source: String,
    /// The features that the target needs.
    pub required_features: Vec<String>,
}

/// The model of [`MetadataTarget`].
#[verifier::ext_equal]
pub struct MetadataTargetView {
    pub name: Seq<char>,
    pub kinds: Seq<Seq<char>>,
    pub crate_types: Seq<Seq<char>>,
    pub source: Seq<char>,
    pub required_features: Seq<Seq<char>>,
}

impl DeepView for MetadataTarget {
    type V = MetadataTargetView;

    open spec fn deep_view(&self) -> MetadataTargetView {
        MetadataTargetView {
            name: self.name.deep_view(),
            kinds: self.kinds.deep_view(),
            crate_types: self.crate_types.deep_view(),
            source: self.source.deep_view(),
            required_features: self.required_features.deep_view(),
        }
    }
}

impl Clone for MetadataTarget {
    fn clone(&self) -> (copy: Self)
        ensures
            copy.deep_view() == self.deep_view(),
    {
        let copy = MetadataTarget {
            name: self.name.clone(),
            kinds: self.kinds.clone(),
            crate_types: self.crate_types.clone(),
            source: self.source.clone(),
            required_features: self.required_features.clone(),
        };
        proof {
            assert(copy.kinds.deep_view() =~= self.kinds.deep_view());
            assert(copy.crate_types.deep_view() =~= self.crate_types.deep_view());
            assert(copy.required_features.deep_view() =~= self.required_features.deep_view());
        }
        copy
    }
}

/// A package, as Cargo describes it.
#[derive(Debug, PartialEq, Eq)]
pub struct MetadataPackage {
    pub id: String,
    pub name: String,
    pub manifest_path: String,
    pub targets: Vec<MetadataTarget>,
}

/// The model of [`MetadataPackage`].
#[verifier::ext_equal]
pub struct MetadataPackageView {
    pub id: Seq<char>,
    pub name: Seq<char>,
    pub manifest_path: Seq<char>,
    pub targets: Seq<MetadataTargetView>,
}

impl DeepView for MetadataPackage {
    type V = MetadataPackageView;

    open spec fn deep_view(&self) -> MetadataPackageView {
        MetadataPackageView {
            id: self.id.deep_view(),
            name: self.name.deep_view(),
            manifest_path: self.manifest_path.deep_view(),
            targets: self.targets.deep_view(),
        }
    }
}

impl Clone for MetadataPackage {
    fn clone(&self) -> (copy: Self)
        ensures
            copy.deep_view() == self.deep_view(),
    {
        let copy = MetadataPackage {
            id: self.id.clone(),
            name: self.name.clone(),
            manifest_path: self.manifest_path.clone(),
            targets: self.targets.clone(),
        };
        proof {
            assert(copy.targets.deep_view() =~= self.targets.deep_view());
        }
        copy
    }
}

/// A package and the features of it that are on.
#[derive(Debug, PartialEq, Eq)]
pub struct ResolvedNode {
    pub id: String,
    pub features: Vec<String>,
}

/// The model of [`ResolvedNode`].
#[verifier::ext_equal]
pub struct ResolvedNodeView {
    pub id: Seq<char>,
    pub features: Seq<Seq<char>>,
}

impl DeepView for ResolvedNode {
    type V = ResolvedNodeView;

    open spec fn deep_view(&self) -> ResolvedNodeView {
        ResolvedNodeView {
            id: self.id.deep_view(),
            features: self.features.deep_view(),
        }
    }
}

impl Clone for ResolvedNode {
    fn clone(&self) -> (copy: Self)
        ensures
            copy.deep_view() == self.deep_view(),
    {
        let copy = ResolvedNode {
            id: self.id.clone(),
            features: self.features.clone(),
        };
        proof {
            assert(copy.features.deep_view() =~= self.features.deep_view());
        }
        copy
    }
}

/// A workspace, as Cargo describes it.
#[derive(Debug, PartialEq, Eq)]
pub struct CargoMetadata {
    pub workspace_root: String,
    pub workspace_members: Vec<String>,
    pub packages: Vec<MetadataPackage>,
    pub nodes: Option<Vec<ResolvedNode>>,
}

/// The model of [`CargoMetadata`].
#[verifier::ext_equal]
pub struct CargoMetadataView {
    pub workspace_root: Seq<char>,
    pub workspace_members: Seq<Seq<char>>,
    pub packages: Seq<MetadataPackageView>,
    pub nodes: Option<Seq<ResolvedNodeView>>,
}

impl DeepView for CargoMetadata {
    type V = CargoMetadataView;

    open spec fn deep_view(&self) -> CargoMetadataView {
        CargoMetadataView {
            workspace_root: self.workspace_root.deep_view(),
            workspace_members: self.workspace_members.deep_view(),
            packages: self.packages.deep_view(),
            nodes: self.nodes.deep_view(),
        }
    }
}

impl Clone for CargoMetadata {
    fn clone(&self) -> (copy: Self)
        ensures
            copy.deep_view() == self.deep_view(),
    {
        let copy = CargoMetadata {
            workspace_root: self.workspace_root.clone(),
            workspace_members: self.workspace_members.clone(),
            packages: self.packages.clone(),
            nodes: self.nodes.clone(),
        };
        proof {
            assert(copy.workspace_members.deep_view() =~= self.workspace_members.deep_view());
            assert(copy.packages.deep_view() =~= self.packages.deep_view());
            assert(copy.nodes.deep_view() =~= self.nodes.deep_view());
        }
        copy
    }
}

/// A package, and the features of it that are to be off.
#[derive(Debug, PartialEq, Eq)]
pub struct ProfilePackage {
    pub id: String,
    pub name: String,
    pub root: String,
    pub excluded: Vec<String>,
}

/// The model of [`ProfilePackage`].
#[verifier::ext_equal]
pub struct ProfilePackageView {
    pub id: Seq<char>,
    pub name: Seq<char>,
    pub root: Seq<char>,
    pub excluded: Seq<Seq<char>>,
}

impl DeepView for ProfilePackage {
    type V = ProfilePackageView;

    open spec fn deep_view(&self) -> ProfilePackageView {
        ProfilePackageView {
            id: self.id.deep_view(),
            name: self.name.deep_view(),
            root: self.root.deep_view(),
            excluded: self.excluded.deep_view(),
        }
    }
}

impl Clone for ProfilePackage {
    fn clone(&self) -> (copy: Self)
        ensures
            copy.deep_view() == self.deep_view(),
    {
        let copy = ProfilePackage {
            id: self.id.clone(),
            name: self.name.clone(),
            root: self.root.clone(),
            excluded: self.excluded.clone(),
        };
        proof {
            assert(copy.excluded.deep_view() =~= self.excluded.deep_view());
        }
        copy
    }
}

/// All that Cargo plans to compile, and the features that are on by package.
#[derive(Debug, PartialEq, Eq)]
pub struct CompilerProfile {
    pub resolved_features: SortedMap<String, Vec<String>>,
    pub expected_units: Vec<ExpectedUnit>,
    /// The features that are to be off, but on.
    pub incompatibilities: Vec<String>,
}

/// The model of [`CompilerProfile`].
#[verifier::ext_equal]
pub struct CompilerProfileView {
    pub resolved_features: Map<Seq<char>, Seq<Seq<char>>>,
    pub expected_units: Seq<ExpectedUnitView>,
    pub incompatibilities: Seq<Seq<char>>,
}

impl DeepView for CompilerProfile {
    type V = CompilerProfileView;

    open spec fn deep_view(&self) -> CompilerProfileView {
        CompilerProfileView {
            resolved_features: self.resolved_features.deep_view(),
            expected_units: self.expected_units.deep_view(),
            incompatibilities: self.incompatibilities.deep_view(),
        }
    }
}

/// The version of the list of units that is understood.
pub const UNIT_GRAPH_VERSION: u32 = 1;

/// What units are ordered by: package, target, kinds, crate types, source, features and platform.
pub type UnitOrder = (
    String,
    (String, (Vec<String>, (Vec<String>, (Vec<(usize, String)>, (Vec<String>, Option<String>))))),
);

/// The model of [`UnitOrder`].
pub type UnitOrderView = (
    Seq<char>,
    (
        Seq<char>,
        (
            Seq<Seq<char>>,
            (
                Seq<Seq<char>>,
                (Seq<(usize, Seq<char>)>, (Seq<Seq<char>>, Option<Seq<char>>)),
            ),
        ),
    ),
);

/// The unit that Cargo names, with what it is ordered by, unless it runs a build script.
pub open spec fn unit_entry() -> spec_fn(RawUnitView) -> Option<(UnitOrderView, ExpectedUnitView)> {
    |unit: RawUnitView|
        if unit.mode == "run-custom-build"@ {
            None
        } else {
            let kinds = in_order(unit.target.kind);
            let crate_types = in_order(unit.target.crate_types);
            let features = in_order(unit.features);
            Some(
                (
                    (
                        unit.pkg_id,
                        (
                            unit.target.name,
                            (
                                kinds,
                                (
                                    crate_types,
                                    (path_key(unit.target.src_path), (features, unit.platform)),
                                ),
                            ),
                        ),
                    ),
                    ExpectedUnitView {
                        package_id: unit.pkg_id,
                        target_name: unit.target.name,
                        target_kinds: kinds,
                        target_crate_types: crate_types,
                        target_source: unit.target.src_path,
                        features,
                        platform: unit.platform,
                    },
                ),
            )
        }
}

/// The units that are compiled, in order.
pub open spec fn units_of(units: Seq<RawUnitView>) -> Seq<ExpectedUnitView> {
    second(stable_sorted::<UnitOrder, ExpectedUnit>(collected(units, unit_entry())))
}

/// What is wrong with a list of units.
pub open spec fn graph_error(version: u32) -> Option<Seq<char>> {
    if version != UNIT_GRAPH_VERSION {
        Some("unsupported pinned Cargo unit-graph version "@ + decimal(version as nat))
    } else {
        None
    }
}

/// Lists the units that are compiled, in order.
pub fn expected_units(graph: &UnitGraph) -> (result: Result<Vec<ExpectedUnit>, String>)
    ensures
        reports(result, graph_error(graph.version)),
        result matches Ok(units) ==> units.deep_view() == units_of(graph.deep_view().units),
{
    if graph.version != UNIT_GRAPH_VERSION {
        let mut message = "unsupported pinned Cargo unit-graph version ".to_owned();
        message.append(decimal_text(graph.version as u128).as_str());
        return Err(message);
    }
    let ghost f = unit_entry();
    let pick = |unit: &RawUnit| -> (entry: Option<(UnitOrder, ExpectedUnit)>)
        ensures
            entry.deep_view() == f(unit.deep_view()),
    {
        if same(unit.mode.as_str(), "run-custom-build") {
            None
        } else {
            Some(enter_unit(unit))
        }
    };
    Ok(take_second(stable_sort(collect_items(&graph.units, pick, Ghost(f)))))
}

fn enter_unit(unit: &RawUnit) -> (entry: (UnitOrder, ExpectedUnit))
    requires
        unit.deep_view().mode != "run-custom-build"@,
    ensures
        Some(entry.deep_view()) == unit_entry()(unit.deep_view()),
{
    let copy = unit.clone();
    let expected = ExpectedUnit {
        package_id: copy.pkg_id,
        target_name: copy.target.name,
        target_kinds: sorted_unique(copy.target.kind),
        target_crate_types: sorted_unique(copy.target.crate_types),
        target_source: copy.target.src_path,
        features: sorted_unique(copy.features),
        platform: copy.platform,
    };
    let key = expected.clone();
    (
        (
            key.package_id,
            (
                key.target_name,
                (
                    key.target_kinds,
                    (
                        key.target_crate_types,
                        (
                            list_path_key(expected.target_source.as_str()),
                            (key.features, key.platform),
                        ),
                    ),
                ),
            ),
        ),
        expected,
    )
}

/// The arguments of Cargo that ask for all units.
pub open spec fn unit_graph_arguments_of(options: AuditCliView, target: Seq<char>) -> Seq<Seq<char>> {
    seq![
        "check"@,
        "-Z"@,
        "unstable-options"@,
        "--unit-graph"@,
        "--workspace"@,
        "--all-targets"@,
        "--target"@,
        target,
    ] + profile_options_of(options)
}

/// Lists the arguments of Cargo that ask for all units.
pub fn unit_graph_arguments(options: &AuditCli, target: &str) -> (arguments: Vec<String>)
    ensures
        arguments.deep_view() == unit_graph_arguments_of(options.deep_view(), target@),
{
    let mut arguments: Vec<String> = no_items();
    push_item(&mut arguments, "check".to_owned());
    push_item(&mut arguments, "-Z".to_owned());
    push_item(&mut arguments, "unstable-options".to_owned());
    push_item(&mut arguments, "--unit-graph".to_owned());
    push_item(&mut arguments, "--workspace".to_owned());
    push_item(&mut arguments, "--all-targets".to_owned());
    push_item(&mut arguments, "--target".to_owned());
    push_item(&mut arguments, target.to_owned());
    let ghost first = arguments.deep_view();
    proof {
        assert(first =~= seq![
            "check"@,
            "-Z"@,
            "unstable-options"@,
            "--unit-graph"@,
            "--workspace"@,
            "--all-targets"@,
            "--target"@,
            target@,
        ]);
    }
    append_items(&mut arguments, profile_options(options));
    arguments
}

/// The arguments of Cargo that ask for a description of a workspace.
pub open spec fn metadata_arguments_of(
    options: AuditCliView,
    target: Seq<char>,
    no_dependencies: bool,
) -> Seq<Seq<char>> {
    seq!["metadata"@, "--format-version"@, "1"@] + argument_if(no_dependencies, "--no-deps"@)
        + profile_options_of(options) + seq!["--filter-platform"@, target]
}

/// Lists the arguments of Cargo that ask for a description of a workspace.
pub fn metadata_arguments(options: &AuditCli, target: &str, no_dependencies: bool) -> (arguments:
    Vec<String>)
    ensures
        arguments.deep_view() == metadata_arguments_of(
            options.deep_view(),
            target@,
            no_dependencies,
        ),
{
    let mut arguments: Vec<String> = no_items();
    push_item(&mut arguments, "metadata".to_owned());
    push_item(&mut arguments, "--format-version".to_owned());
    push_item(&mut arguments, "1".to_owned());
    if no_dependencies {
        push_item(&mut arguments, "--no-deps".to_owned());
    }
    proof {
        assert(arguments.deep_view() =~= seq!["metadata"@, "--format-version"@, "1"@] + argument_if(
            no_dependencies,
            "--no-deps"@,
        ));
    }
    append_items(&mut arguments, profile_options(options));
    let ghost first = arguments.deep_view();
    push_item(&mut arguments, "--filter-platform".to_owned());
    push_item(&mut arguments, target.to_owned());
    proof {
        assert(arguments.deep_view() =~= first + seq!["--filter-platform"@, target@]);
    }
    arguments
}

/// The workspace that bytes describe, where they describe one.
pub uninterp spec fn described_workspace(bytes: Seq<u8>) -> Option<CargoMetadataView>;

/// A description of a workspace.
#[verifier::external_type_specification]
#[verifier::external_body]
pub struct ExMetadata(cargo_metadata::Metadata);

/// A package in the description of a workspace.
#[verifier::external_type_specification]
#[verifier::external_body]
pub struct ExPackage(cargo_metadata::Package);

/// A target in the description of a workspace.
#[verifier::external_type_specification]
#[verifier::external_body]
pub struct ExTarget(cargo_metadata::Target);

/// Reads the description of a workspace with `serde_json::from_slice`, as a
/// `cargo_metadata::Metadata`. What it is depends on the bytes alone; how descriptions are written
/// is left unsaid.
#[verifier::external_body]
fn parse_metadata(bytes: &Vec<u8>) -> (metadata: Option<CargoMetadata>)
    ensures
        metadata.deep_view() == described_workspace(bytes@),
{
    match serde_json::from_slice::<cargo_metadata::Metadata>(bytes) {
        Ok(metadata) => Some(convert_metadata(metadata)),
        Err(_) => None,
    }
}

/// Takes the description of a workspace apart, for [`parse_metadata`].
#[verifier::external_body]
fn convert_metadata(it: cargo_metadata::Metadata) -> CargoMetadata {
    CargoMetadata {
        workspace_root: it.workspace_root.into_string(),
        workspace_members: it.workspace_members.iter().map(ToString::to_string).collect(),
        packages: it.packages.into_iter().map(convert_package).collect(),
        nodes: it.resolve.map(|resolve| {
            resolve.nodes.iter().map(|node| ResolvedNode {
                id: node.id.to_string(),
                features: node.features.iter().map(ToString::to_string).collect(),
            }).collect()
        }),
    }
}

/// Takes a package in the description of a workspace apart, for [`convert_metadata`].
#[verifier::external_body]
fn convert_package(it: cargo_metadata::Package) -> MetadataPackage {
    MetadataPackage {
        id: it.id.to_string(),
        name: it.name.to_string(),
        manifest_path: it.manifest_path.into_string(),
        targets: it.targets.into_iter().map(convert_target).collect(),
    }
}

/// Takes a target in the description of a workspace apart, for [`convert_package`].
#[verifier::external_body]
fn convert_target(it: cargo_metadata::Target) -> MetadataTarget {
    MetadataTarget {
        name: it.name,
        kinds: it.kind.iter().map(ToString::to_string).collect(),
        crate_types: it.crate_types.iter().map(ToString::to_string).collect(),
        source: it.src_path.into_string(),
        required_features: it.required_features,
    }
}

/// What is wrong with the description of a workspace.
pub open spec fn metadata_error(bytes: Seq<u8>) -> Option<Seq<char>> {
    match described_workspace(bytes) {
        Some(_) => None,
        None => Some("pinned Cargo metadata was malformed"@),
    }
}

/// Reads the description of a workspace.
pub fn load_metadata(bytes: &Vec<u8>) -> (result: Result<CargoMetadata, String>)
    ensures
        reports(result, metadata_error(bytes@)),
        result matches Ok(metadata) ==> Some(metadata.deep_view()) == described_workspace(bytes@),
{
    match parse_metadata(bytes) {
        Some(metadata) => Ok(metadata),
        None => Err("pinned Cargo metadata was malformed".to_owned()),
    }
}

/// Where a package is: the directory of its manifest.
pub open spec fn package_root(manifest: Seq<char>) -> Seq<char> {
    match parent_of(manifest) {
        Some(directory) => directory,
        None => manifest,
    }
}

fn find_package_root(manifest: &str) -> (root: String)
    ensures
        root@ == package_root(manifest@),
{
    match parent(manifest) {
        Some(directory) => directory,
        None => manifest.to_owned(),
    }
}

/// Whether a directory and a path that an audit is requested for lie one below the other.
pub open spec fn touches(root: Seq<char>) -> spec_fn(Seq<char>) -> bool {
    |path: Seq<char>| path_below(path, root) is Some || path_below(root, path) is Some
}

/// Picks the directory of a package that a requested path touches.
pub open spec fn requested_root(requested: Seq<Seq<char>>) -> spec_fn(MetadataPackageView) -> Option<
    Seq<char>,
> {
    |package: MetadataPackageView|
        {
            let root = package_root(package.manifest_path);
            if any_where(requested, touches(root)) {
                Some(root)
            } else {
                None
            }
        }
}

/// Lists the directories of the packages that an audit is requested for: those that a requested
/// path is in, and those that are in a requested path.
pub fn selected_roots(metadata: &CargoMetadata, requested: &Vec<String>) -> (roots: Vec<String>)
    ensures
        roots.deep_view() == collected(
            metadata.deep_view().packages,
            requested_root(requested.deep_view()),
        ),
{
    let ghost f = requested_root(requested.deep_view());
    let pick = |package: &MetadataPackage| -> (root: Option<String>)
        ensures
            root.deep_view() == f(package.deep_view()),
    {
        let root = find_package_root(package.manifest_path.as_str());
        let ghost property = touches(root@);
        let test = |path: &String| -> (result: bool)
            ensures
                result == property(path.deep_view()),
        {
            strip_base(path.as_str(), root.as_str()).is_some() || strip_base(
                root.as_str(),
                path.as_str(),
            ).is_some()
        };
        if any_item(requested, test, Ghost(property)) {
            Some(root)
        } else {
            None
        }
    };
    collect_items(&metadata.packages, pick, Ghost(f))
}

/// A target, as an audit sees it.
pub open spec fn audit_target_of() -> spec_fn(MetadataTargetView) -> Option<PackageTargetInfoView> {
    |target: MetadataTargetView|
        Some(
            PackageTargetInfoView {
                name: target.name,
                kinds: target.kinds,
                crate_types: target.crate_types,
                source: target.source,
            },
        )
}

/// A package of the workspace, as an audit sees it.
pub open spec fn audit_package_of(
    members: Seq<Seq<char>>,
    selected_roots: Seq<Seq<char>>,
) -> spec_fn(MetadataPackageView) -> Option<AuditPackageView> {
    |package: MetadataPackageView|
        if members.contains(package.id) {
            Some(
                AuditPackageView {
                    id: package.id,
                    name: package.name,
                    root: package_root(package.manifest_path),
                    targets: collected(package.targets, audit_target_of()),
                    selected: selected_roots.contains(package_root(package.manifest_path)),
                },
            )
        } else {
            None
        }
}

fn list_targets(targets: &Vec<MetadataTarget>) -> (list: Vec<PackageTargetInfo>)
    ensures
        list.deep_view() == collected(targets.deep_view(), audit_target_of()),
{
    let ghost f = audit_target_of();
    let pick = |target: &MetadataTarget| -> (info: Option<PackageTargetInfo>)
        ensures
            info.deep_view() == f(target.deep_view()),
    {
        let copy = target.clone();
        Some(
            PackageTargetInfo {
                name: copy.name,
                kinds: copy.kinds,
                crate_types: copy.crate_types,
                source: copy.source,
            },
        )
    };
    collect_items(targets, pick, Ghost(f))
}

/// Lists the packages of a workspace, as an audit sees them. Those are selected that are in one of
/// some directories.
pub fn audit_packages(metadata: &CargoMetadata, selected_roots: &Vec<String>) -> (packages: Vec<
    AuditPackage,
>)
    ensures
        packages.deep_view() == collected(
            metadata.deep_view().packages,
            audit_package_of(metadata.deep_view().workspace_members, selected_roots.deep_view()),
        ),
{
    let members = &metadata.workspace_members;
    let ghost f = audit_package_of(members.deep_view(), selected_roots.deep_view());
    let pick = |package: &MetadataPackage| -> (found: Option<AuditPackage>)
        ensures
            found.deep_view() == f(package.deep_view()),
    {
        if list_contains(members, package.id.as_str()) {
            let root = find_package_root(package.manifest_path.as_str());
            let selected = list_contains(selected_roots, root.as_str());
            Some(
                AuditPackage {
                    id: package.id.clone(),
                    name: package.name.clone(),
                    root,
                    targets: list_targets(&package.targets),
                    selected,
                },
            )
        } else {
            None
        }
    };
    collect_items(&metadata.packages, pick, Ghost(f))
}

/// A target with the features that it needs.
pub open spec fn gated_target_of() -> spec_fn(MetadataTargetView) -> Option<GatedTargetView> {
    |target: MetadataTargetView|
        Some(
            GatedTargetView {
                name: target.name,
                kinds: target.kinds,
                crate_types: target.crate_types,
                source: target.source,
                required_features: target.required_features,
            },
        )
}

/// A package of the workspace with what its targets need.
pub open spec fn gated_package_of(
    members: Seq<Seq<char>>,
    selected_roots: Seq<Seq<char>>,
) -> spec_fn(MetadataPackageView) -> Option<GatedPackageView> {
    |package: MetadataPackageView|
        if members.contains(package.id) {
            Some(
                GatedPackageView {
                    id: package.id,
                    name: package.name,
                    targets: collected(package.targets, gated_target_of()),
                    selected: selected_roots.contains(package_root(package.manifest_path)),
                },
            )
        } else {
            None
        }
}

fn list_gated_targets(targets: &Vec<MetadataTarget>) -> (list: Vec<GatedTarget>)
    ensures
        list.deep_view() == collected(targets.deep_view(), gated_target_of()),
{
    let ghost f = gated_target_of();
    let pick = |target: &MetadataTarget| -> (gated: Option<GatedTarget>)
        ensures
            gated.deep_view() == f(target.deep_view()),
    {
        let copy = target.clone();
        Some(
            GatedTarget {
                name: copy.name,
                kinds: copy.kinds,
                crate_types: copy.crate_types,
                source: copy.source,
                required_features: copy.required_features,
            },
        )
    };
    collect_items(targets, pick, Ghost(f))
}

/// Lists the packages of a workspace with what their targets need. Those are selected that are in
/// one of some directories.
pub fn gated_packages(metadata: &CargoMetadata, selected_roots: &Vec<String>) -> (packages: Vec<
    GatedPackage,
>)
    ensures
        packages.deep_view() == collected(
            metadata.deep_view().packages,
            gated_package_of(metadata.deep_view().workspace_members, selected_roots.deep_view()),
        ),
{
    let members = &metadata.workspace_members;
    let ghost f = gated_package_of(members.deep_view(), selected_roots.deep_view());
    let pick = |package: &MetadataPackage| -> (found: Option<GatedPackage>)
        ensures
            found.deep_view() == f(package.deep_view()),
    {
        if list_contains(members, package.id.as_str()) {
            let root = find_package_root(package.manifest_path.as_str());
            Some(
                GatedPackage {
                    id: package.id.clone(),
                    name: package.name.clone(),
                    targets: list_gated_targets(&package.targets),
                    selected: list_contains(selected_roots, root.as_str()),
                },
            )
        } else {
            None
        }
    };
    collect_items(&metadata.packages, pick, Ghost(f))
}

/// What is wrong with the paths that an audit is requested for.
pub open spec fn request_error(root: Seq<char>, requested: Seq<Seq<char>>) -> Option<Seq<char>> {
    if requested.len() == 0 {
        Some("at least one path is required"@)
    } else {
        first_error(requested.len() as int, |i: int| outside_error(root, requested[i]), 0)
    }
}

/// What is wrong with a path that an audit is requested for.
pub open spec fn outside_error(root: Seq<char>, path: Seq<char>) -> Option<Seq<char>> {
    if path_below(path, root) is Some {
        None
    } else {
        Some(
            "cannot mix Cargo workspace "@ + root + " with outside path "@ + path
                + "; run rot-audit once per workspace"@,
        )
    }
}

/// Checks that the paths that an audit is requested for are all in the workspace.
pub fn check_requested(root: &str, requested: &Vec<String>) -> (result: Result<(), String>)
    ensures
        reports(result, request_error(root@, requested.deep_view())),
{
    let ghost all = requested.deep_view();
    let ghost complaint = |i: int| outside_error(root@, all[i]);
    proof {
        assert(all.len() == requested.len());
    }
    if requested.len() == 0 {
        return Err("at least one path is required".to_owned());
    }
    let mut at: usize = 0;
    while at < requested.len()
        invariant
            all == requested.deep_view(),
            complaint == |i: int| outside_error(root@, all[i]),
            at <= all.len(),
            all.len() > 0,
            request_error(root@, all) == first_error(all.len() as int, complaint, at as int),
        decreases all.len() - at,
    {
        proof {
            assert(all[at as int] == requested[at as int]@);
            assert(complaint(at as int) == outside_error(root@, all[at as int]));
        }
        let path = requested[at].as_str();
        if strip_base(path, root).is_none() {
            let mut message = "cannot mix Cargo workspace ".to_owned();
            message.append(root);
            message.append(" with outside path ");
            message.append(path);
            message.append("; run rot-audit once per workspace");
            return Err(message);
        }
        at = at + 1;
    }
    Ok(())
}

/// The place of the package that has an identity.
pub open spec fn package_place(packages: Seq<MetadataPackageView>, id: Seq<char>, from: int) -> int
    decreases packages.len() - from,
{
    if from >= packages.len() {
        packages.len() as int
    } else if packages[from].id == id {
        from
    } else {
        package_place(packages, id, from + 1)
    }
}

/// Whether a member of the workspace is the package of a name in a directory.
pub open spec fn is_member(
    metadata: CargoMetadataView,
    known: Seq<CanonicalPathView>,
    name: Seq<char>,
    root: Seq<(usize, Seq<char>)>,
) -> spec_fn(Seq<char>) -> bool {
    |id: Seq<char>|
        {
            let place = package_place(metadata.packages, id, 0);
            place < metadata.packages.len() && metadata.packages[place].name == name
                && canonical_key(known, package_root(metadata.packages[place].manifest_path))
                == root
        }
}

/// The identity of the member of the workspace that is the package of a name in a directory. Of
/// several it is the last.
pub open spec fn member_id(
    metadata: CargoMetadataView,
    known: Seq<CanonicalPathView>,
    name: Seq<char>,
    root: Seq<(usize, Seq<char>)>,
) -> Option<Seq<char>> {
    match last_place(metadata.workspace_members, is_member(metadata, known, name, root)) {
        Some(place) => Some(metadata.workspace_members[place]),
        None => None,
    }
}

/// Whether a node is of a package.
pub open spec fn is_node(id: Seq<char>) -> spec_fn(ResolvedNodeView) -> bool {
    |node: ResolvedNodeView| node.id == id
}

/// The features of a package that are on. Of several nodes it is the last that says.
pub open spec fn enabled_features(nodes: Seq<ResolvedNodeView>, id: Seq<char>) -> Option<
    Seq<Seq<char>>,
> {
    match last_place(nodes, is_node(id)) {
        Some(place) => Some(in_order(nodes[place].features)),
        None => None,
    }
}

/// What is wrong with a package.
pub open spec fn package_error(
    metadata: CargoMetadataView,
    known: Seq<CanonicalPathView>,
    package: ProfilePackageView,
) -> Option<Seq<char>> {
    match member_id(metadata, known, package.name, canonical_key(known, package.root)) {
        None => Some(
            "pinned Cargo metadata omitted workspace package "@ + package.name + " at "@
                + package.root,
        ),
        Some(id) => if enabled_features(metadata.nodes->0, id) is None {
            Some(
                "pinned Cargo metadata omitted resolved features for workspace package "@
                    + package.name,
            )
        } else {
            None
        },
    }
}

/// The features of a package that are on.
pub open spec fn package_features(
    metadata: CargoMetadataView,
    known: Seq<CanonicalPathView>,
    package: ProfilePackageView,
) -> Seq<Seq<char>> {
    let id = member_id(metadata, known, package.name, canonical_key(known, package.root))->0;
    enabled_features(metadata.nodes->0, id)->0
}

/// What is said of a feature that is to be off, but on.
pub open spec fn conflict(name: Seq<char>, feature: Seq<char>) -> Seq<char> {
    "package "@ + name + ": feature "@ + debug_text(feature)
        + " is enabled by Cargo's resolved dependency graph and cannot be excluded in compiler mode"@
}

/// The features of a package that are to be off, but on.
pub open spec fn conflicts(package: ProfilePackageView, enabled: Seq<Seq<char>>) -> Seq<Seq<char>> {
    collected(
        package.excluded,
        |feature: Seq<char>|
            if enabled.contains(feature) {
                Some(conflict(package.name, feature))
            } else {
                None
            },
    )
}

/// What is wrong with the features of packages.
pub open spec fn profile_error(
    metadata: CargoMetadataView,
    known: Seq<CanonicalPathView>,
    packages: Seq<ProfilePackageView>,
) -> Option<Seq<char>> {
    if metadata.nodes is None {
        Some("pinned Cargo metadata omitted its resolved dependency graph"@)
    } else {
        first_error(
            packages.len() as int,
            |i: int| package_error(metadata, known, packages[i]),
            0,
        )
    }
}

/// What Cargo plans to compile, with the features of packages.
pub open spec fn profile_of(
    metadata: CargoMetadataView,
    known: Seq<CanonicalPathView>,
    packages: Seq<ProfilePackageView>,
    units: Seq<ExpectedUnitView>,
) -> CompilerProfileView {
    CompilerProfileView {
        resolved_features: assembled(
            Seq::new(
                packages.len(),
                |i: int| (packages[i].id, package_features(metadata, known, packages[i])),
            ),
        ),
        expected_units: units,
        incompatibilities: in_order(
            flattened(
                packages.len() as int,
                |i: int|
                    conflicts(packages[i], package_features(metadata, known, packages[i])),
            ),
        ),
    }
}

fn find_package<'a>(metadata: &'a CargoMetadata, id: &str) -> (found: Option<&'a MetadataPackage>)
    ensures
        match found {
            Some(package) => {
                let place = package_place(metadata.deep_view().packages, id@, 0);
                place < metadata.deep_view().packages.len()
                    && metadata.deep_view().packages[place] == package.deep_view()
            },
            None => package_place(metadata.deep_view().packages, id@, 0)
                == metadata.deep_view().packages.len(),
        },
{
    let packages = &metadata.packages;
    let ghost all = packages.deep_view();
    let mut at: usize = 0;
    while at < packages.len()
        invariant
            all == packages.deep_view(),
            all == metadata.deep_view().packages,
            at <= all.len(),
            package_place(all, id@, 0) == package_place(all, id@, at as int),
        decreases all.len() - at,
    {
        proof {
            assert(all[at as int] == packages[at as int].deep_view());
        }
        if same(packages[at].id.as_str(), id) {
            return Some(&packages[at]);
        }
        at = at + 1;
    }
    None
}

fn find_member(
    metadata: &CargoMetadata,
    known: &Vec<CanonicalPath>,
    name: &str,
    root: &PathKey,
) -> (id: Option<String>)
    ensures
        id.deep_view() == member_id(
            metadata.deep_view(),
            known.deep_view(),
            name@,
            root.deep_view(),
        ),
{
    let ghost told = metadata.deep_view();
    let ghost property = is_member(told, known.deep_view(), name@, root.deep_view());
    let test = |id: &String| -> (result: bool)
        ensures
            result == property(id.deep_view()),
    {
        match find_package(metadata, id.as_str()) {
            Some(package) => same(package.name.as_str(), name) && same_key(
                &look_up_key(
                    known,
                    find_package_root(package.manifest_path.as_str()).as_str(),
                ),
                root,
            ),
            None => false,
        }
    };
    match find_last(&metadata.workspace_members, test, Ghost(property)) {
        Some(place) => {
            proof {
                assert(told.workspace_members[place as int]
                    == metadata.workspace_members[place as int]@);
            }
            Some(metadata.workspace_members[place].clone())
        },
        None => None,
    }
}

fn find_features(nodes: &Vec<ResolvedNode>, id: &str) -> (features: Option<Vec<String>>)
    ensures
        features.deep_view() == enabled_features(nodes.deep_view(), id@),
{
    let ghost property = is_node(id@);
    let test = |node: &ResolvedNode| -> (result: bool)
        ensures
            result == property(node.deep_view()),
    {
        same(node.id.as_str(), id)
    };
    match find_last(nodes, test, Ghost(property)) {
        Some(place) => {
            proof {
                assert(nodes.deep_view()[place as int] == nodes[place as int].deep_view());
            }
            let copy = nodes[place].clone();
            Some(sorted_unique(copy.features))
        },
        None => None,
    }
}

fn list_conflicts(package: &ProfilePackage, enabled: &Vec<String>) -> (list: Vec<String>)
    ensures
        list.deep_view() == conflicts(package.deep_view(), enabled.deep_view()),
{
    let ghost told = package.deep_view();
    let ghost on = enabled.deep_view();
    let ghost f = |feature: Seq<char>|
        if on.contains(feature) {
            Some(conflict(told.name, feature))
        } else {
            None
        };
    let pick = |feature: &String| -> (message: Option<String>)
        ensures
            message.deep_view() == f(feature.deep_view()),
    {
        if list_contains(enabled, feature.as_str()) {
            let mut message = "package ".to_owned();
            message.append(package.name.as_str());
            message.append(": feature ");
            message.append(quoted(feature.as_str()).as_str());
            message.append(
                " is enabled by Cargo's resolved dependency graph and cannot be excluded in compiler mode",
            );
            Some(message)
        } else {
            None
        }
    };
    collect_items(&package.excluded, pick, Ghost(f))
}

fn resolve_package(
    metadata: &CargoMetadata,
    nodes: &Vec<ResolvedNode>,
    known: &Vec<CanonicalPath>,
    package: &ProfilePackage,
) -> (result: Result<Vec<String>, String>)
    requires
        metadata.deep_view().nodes == Some(nodes.deep_view()),
    ensures
        reports(
            result,
            package_error(metadata.deep_view(), known.deep_view(), package.deep_view()),
        ),
        result matches Ok(features) ==> features.deep_view() == package_features(
            metadata.deep_view(),
            known.deep_view(),
            package.deep_view(),
        ),
{
    let root = look_up_key(known, package.root.as_str());
    let id = match find_member(metadata, known, package.name.as_str(), &root) {
        Some(id) => id,
        None => {
            let mut message = "pinned Cargo metadata omitted workspace package ".to_owned();
            message.append(package.name.as_str());
            message.append(" at ");
            message.append(package.root.as_str());
            return Err(message);
        },
    };
    match find_features(nodes, id.as_str()) {
        Some(features) => Ok(features),
        None => {
            let mut message =
                "pinned Cargo metadata omitted resolved features for workspace package ".to_owned();
            message.append(package.name.as_str());
            Err(message)
        },
    }
}

/// Puts together what Cargo plans to compile: the features of every package that are on, and those
/// of them that are to be off.
pub fn compiler_profile(
    metadata: &CargoMetadata,
    known: &Vec<CanonicalPath>,
    packages: &Vec<ProfilePackage>,
    units: Vec<ExpectedUnit>,
) -> (result: Result<CompilerProfile, String>)
    ensures
        reports(
            result,
            profile_error(metadata.deep_view(), known.deep_view(), packages.deep_view()),
        ),
        result matches Ok(profile) ==> profile.resolved_features.wf() && profile.deep_view()
            == profile_of(
            metadata.deep_view(),
            known.deep_view(),
            packages.deep_view(),
            units.deep_view(),
        ),
{
    let ghost told = metadata.deep_view();
    let ghost paths = known.deep_view();
    let ghost all = packages.deep_view();
    let ghost complaint = |i: int| package_error(told, paths, all[i]);
    let ghost features = Seq::new(
        all.len(),
        |i: int| (all[i].id, package_features(told, paths, all[i])),
    );
    let ghost f = |i: int| conflicts(all[i], package_features(told, paths, all[i]));
    let nodes = match &metadata.nodes {
        Some(nodes) => nodes,
        None => return Err(
            "pinned Cargo metadata omitted its resolved dependency graph".to_owned(),
        ),
    };
    let mut entries: Vec<(String, Vec<String>)> = no_items();
    let mut messages: Vec<String> = no_items();
    let mut at: usize = 0;
    proof {
        assert(features.take(0) =~= Seq::<(Seq<char>, Seq<Seq<char>>)>::empty());
    }
    while at < packages.len()
        invariant
            told == metadata.deep_view(),
            paths == known.deep_view(),
            all == packages.deep_view(),
            told.nodes == Some(nodes.deep_view()),
            complaint == |i: int| package_error(told, paths, all[i]),
            features == Seq::new(
                all.len(),
                |i: int| (all[i].id, package_features(told, paths, all[i])),
            ),
            f == |i: int| conflicts(all[i], package_features(told, paths, all[i])),
            at <= all.len(),
            entries.deep_view() == features.take(at as int),
            messages.deep_view() == flattened(at as int, f),
            profile_error(told, paths, all) == first_error(
                all.len() as int,
                complaint,
                at as int,
            ),
        decreases all.len() - at,
    {
        let package = &packages[at];
        proof {
            assert(all[at as int] == package.deep_view());
            assert(complaint(at as int) == package_error(told, paths, all[at as int]));
            assert(f(at as int) == conflicts(
                all[at as int],
                package_features(told, paths, all[at as int]),
            ));
        }
        let enabled = match resolve_package(metadata, nodes, known, package) {
            Ok(enabled) => enabled,
            Err(message) => return Err(message),
        };
        append_items(&mut messages, list_conflicts(package, &enabled));
        push_item(&mut entries, (package.id.clone(), enabled));
        proof {
            assert(entries.deep_view() =~= features.take(at as int + 1));
        }
        at = at + 1;
    }
    proof {
        assert(features.take(all.len() as int) =~= features);
    }
    Ok(
        CompilerProfile {
            resolved_features: assemble(entries),
            expected_units: units,
            incompatibilities: sorted_unique(messages),
        },
    )
}

impl CompilerProfile {
    /// The features of a package that are on.
    pub fn resolved_features(&self, package: &String) -> (features: Option<&Vec<String>>)
        requires
            self.resolved_features.wf(),
        ensures
            match features {
                Some(features) => self.deep_view().resolved_features.contains_key(package@)
                    && self.deep_view().resolved_features[package@] == features.deep_view(),
                None => !self.deep_view().resolved_features.contains_key(package@),
            },
    {
        self.resolved_features.get(package)
    }
}

/// A unit that runs a build script is never compiled, and all others are.
pub proof fn law_only_build_script_runs_are_left_out(units: Seq<RawUnitView>)
    ensures
        units_of(units).len() == crate::collections::count_where(
            units,
            |unit: RawUnitView| unit.mode != "run-custom-build"@,
        ),
    decreases units.len(),
{
    let f = unit_entry();
    let property = |unit: RawUnitView| unit.mode != "run-custom-build"@;
    lemma_units_counted(units);
    crate::collections::lemma_stable_sorted::<UnitOrder, ExpectedUnit>(collected(units, f));
    broadcast use vstd::seq_lib::group_to_multiset_ensures;

    assert(stable_sorted::<UnitOrder, ExpectedUnit>(collected(units, f)).len() == collected(
        units,
        f,
    ).len());
}

proof fn lemma_units_counted(units: Seq<RawUnitView>)
    ensures
        collected(units, unit_entry()).len() == crate::collections::count_where(
            units,
            |unit: RawUnitView| unit.mode != "run-custom-build"@,
        ),
    decreases units.len(),
{
    if units.len() > 0 {
        lemma_units_counted(units.drop_last());
    }
}

} // verus!
