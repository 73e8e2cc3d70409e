//! The reference graph of all selected compiler invocations.

use vstd::prelude::*;

use crate::collections::{
    ascending, cells, collected, first_where, flat_image, group_at, grouped, image, lemma_cells,
    lemma_collected_step, lemma_first_where, lemma_first_where_step, lemma_flat_image_step,
    lemma_grouped_ends, lemma_grouped_step, lemma_image_ends, lemma_image_step, lemma_overlay_add,
    list_cells, overlay, sorted_unique, Groups, SortedMap, SortedSet,
};
use crate::compiler::graph_keys::{
    DefinitionKey, DefinitionKeyView, GraphState, LocalKey, LogicalTarget, LogicalTargetView,
    NodeKey, NodeKeyView, ReferenceEdge, RootEvidence, RootEvidenceView, SpanIdentity,
    SpanIdentityView, VisibilityKey, VisibilityKeyView,
};
use crate::compiler::reach::{reach, reachable};
use crate::compiler::sidecar::{Invocation, InvocationView};
use crate::model::{CompilerTargetReport, CompilerTargetReportView, SemanticStatus};
use crate::order::Ordered;
use crate::paths::{list_path_key, path_key, same_key, same_path, PathKey};
use crate::protocol::{
    CompilerDefId, Definition, DefinitionView, Reference, ReferenceKind, ReferenceView, Root,
    RootKind, RootView, SourceFile, SourceFileKey, SourceFileView, SourceSpan, SourceSpanView,
};
use crate::text::{copy_list, list_contains, same};

verus! {

/// A path and its canonical form.
#[derive(Debug, PartialEq, Eq)]
pub struct CanonicalPath {
    pub path: String,
    pub canonical: String,
}

/// The model of [`CanonicalPath`].
#[verifier::ext_equal]
pub struct CanonicalPathView {
    pub path: Seq<char>,
    pub canonical: Seq<char>,
}

impl DeepView for CanonicalPath {
    type V = CanonicalPathView;

    open spec fn deep_view(&self) -> CanonicalPathView {
        CanonicalPathView {
            path: self.path.deep_view(),
            canonical: self.canonical.deep_view(),
        }
    }
}

impl Clone for CanonicalPath {
    fn clone(&self) -> (copy: Self)
        ensures
            copy.deep_view() == self.deep_view(),
    {
        let copy = CanonicalPath {
            path: self.path.clone(),
            canonical: self.canonical.clone(),
        };
        copy
    }
}

/// The workspace root, and the canonical forms of the paths that have one.
#[derive(Debug, PartialEq, Eq)]
pub struct Locations {
    pub root: String,
    pub canonical: Vec<CanonicalPath>,
}

/// The model of [`Locations`].
#[verifier::ext_equal]
pub struct LocationsView {
    pub root: Seq<char>,
    pub canonical: Seq<CanonicalPathView>,
}

impl DeepView for Locations {
    type V = LocationsView;

    open spec fn deep_view(&self) -> LocationsView {
        LocationsView {
            root: self.root.deep_view(),
            canonical: self.canonical.deep_view(),
        }
    }
}

impl Clone for Locations {
    fn clone(&self) -> (copy: Self)
        ensures
            copy.deep_view() == self.deep_view(),
    {
        let copy = Locations {
            root: self.root.clone(),
            canonical: self.canonical.clone(),
        };
        proof {
            assert(copy.canonical.deep_view() =~= self.canonical.deep_view());
        }
        copy
    }
}

/// One compiler invocation together with the Cargo target that it compiles.
pub struct GraphInvocation<'a> {
    pub target: &'a CompilerTargetReport,
    pub owner: &'a str,
    pub crate_name: &'a str,
    pub status: SemanticStatus,
    pub invocation: &'a Invocation,
}

/// The model of [`GraphInvocation`].
#[verifier::ext_equal]
pub struct GraphInvocationView {
    pub target: CompilerTargetReportView,
    pub owner: Seq<char>,
    pub crate_name: Seq<char>,
    pub status: SemanticStatus,
    pub invocation: InvocationView,
}

impl<'a> DeepView for GraphInvocation<'a> {
    type V = GraphInvocationView;

    open spec fn deep_view(&self) -> GraphInvocationView {
        GraphInvocationView {
            target: self.target.deep_view(),
            owner: self.owner@,
            crate_name: self.crate_name@,
            status: self.status,
            invocation: self.invocation.deep_view(),
        }
    }
}

/// All selected invocations, and where their sources lie.
pub struct World<'a> {
    pub places: &'a Locations,
    pub invocations: &'a Vec<GraphInvocation<'a>>,
}

/// The model of [`World`].
#[verifier::ext_equal]
pub struct WorldView {
    pub places: LocationsView,
    pub invocations: Seq<GraphInvocationView>,
}

impl<'a> DeepView for World<'a> {
    type V = WorldView;

    open spec fn deep_view(&self) -> WorldView {
        WorldView {
            places: self.places.deep_view(),
            invocations: self.invocations.deep_view(),
        }
    }
}

/// The canonical form of a path; a path without one stands for itself.
pub open spec fn canonical_form(known: Seq<CanonicalPathView>, path: Seq<char>) -> Seq<char> {
    match first_where(known, |entry: CanonicalPathView| same_path(entry.path, path)) {
        Some(entry) => entry.canonical,
        None => path,
    }
}

/// What the canonical form of a path is compared by.
pub open spec fn canonical_key(known: Seq<CanonicalPathView>, path: Seq<char>) -> Seq<
    (usize, Seq<char>),
> {
    path_key(canonical_form(known, path))
}

/// Looks up the canonical form of a path among those that are known.
pub fn look_up(entries: &Vec<CanonicalPath>, path: &str) -> (form: String)
    ensures
        form@ == canonical_form(entries.deep_view(), path@),
{
    let ghost known = entries.deep_view();
    let ghost wanted = |entry: CanonicalPathView| same_path(entry.path, path@);
    proof {
        lemma_first_where(known, wanted);
    }
    let key = list_path_key(path);
    let mut index: usize = 0;
    while index < entries.len()
        invariant
            known == entries.deep_view(),
            wanted == |entry: CanonicalPathView| same_path(entry.path, path@),
            key.deep_view() == path_key(path@),
            index <= known.len(),
            first_where(known, wanted) == first_where(known.skip(index as int), wanted),
        decreases known.len() - index,
    {
        proof {
            lemma_first_where_step(known, wanted, index as int);
            assert(known[index as int] == entries[index as int].deep_view());
        }
        if same_key(&list_path_key(entries[index].path.as_str()), &key) {
            return entries[index].canonical.clone();
        }
        index = index + 1;
    }
    path.to_owned()
}

/// Looks up the canonical form of a path.
pub fn canonical(places: &Locations, path: &str) -> (form: String)
    ensures
        form@ == canonical_form(places.deep_view().canonical, path@),
{
    look_up(&places.canonical, path)
}

/// Looks up what the canonical form of a path is compared by.
pub fn look_up_key(entries: &Vec<CanonicalPath>, path: &str) -> (key: PathKey)
    ensures
        key.deep_view() == canonical_key(entries.deep_view(), path@),
{
    list_path_key(look_up(entries, path).as_str())
}

/// Looks up what the canonical form of a path is compared by.
pub fn canonical_place(places: &Locations, path: &str) -> (key: PathKey)
    ensures
        key.deep_view() == canonical_key(places.deep_view().canonical, path@),
{
    look_up_key(&places.canonical, path)
}

/// The source file with a key.
pub open spec fn source_with(sources: Seq<SourceFileView>, key: Seq<char>) -> Option<
    SourceFileView,
> {
    first_where(sources, |source: SourceFileView| source.key == key)
}

/// Looks up the source file with a key.
pub fn find_source<'a>(sources: &'a Vec<SourceFile>, key: &SourceFileKey) -> (found: Option<
    &'a SourceFile,
>)
    ensures
        found.deep_view() == source_with(sources.deep_view(), key.deep_view()),
{
    let ghost all = sources.deep_view();
    let ghost wanted = |source: SourceFileView| source.key == key.deep_view();
    proof {
        lemma_first_where(all, wanted);
    }
    let mut index: usize = 0;
    while index < sources.len()
        invariant
            all == sources.deep_view(),
            wanted == |source: SourceFileView| source.key == key.deep_view(),
            index <= all.len(),
            first_where(all, wanted) == first_where(all.skip(index as int), wanted),
        decreases all.len() - index,
    {
        proof {
            lemma_first_where_step(all, wanted, index as int);
            assert(all[index as int] == sources[index as int].deep_view());
        }
        if same(sources[index].key.0.as_str(), key.0.as_str()) {
            return Some(&sources[index]);
        }
        index = index + 1;
    }
    None
}

/// Whether a span lies within a source file.
pub open spec fn span_fits(source: SourceFileView, span: SourceSpanView) -> bool {
    span.start <= span.end && span.end <= source.byte_len
}

/// What identifies a span across invocations, where its source file is known and holds it.
pub open spec fn span_identity_of(
    places: LocationsView,
    sources: Seq<SourceFileView>,
    span: SourceSpanView,
) -> Option<SpanIdentityView> {
    match source_with(sources, span.file) {
        Some(source) if span_fits(source, span) => Some(
            SpanIdentityView {
                path: if source.generated {
                    source.remapped_path
                } else {
                    canonical_form(
                        places.canonical,
                        match source.local_path {
                            Some(path) => path,
                            None => source.remapped_path,
                        },
                    )
                },
                source_hash: source.source_hash,
                generated: source.generated,
                start: span.start,
                end: span.end,
            },
        ),
        _ => None,
    }
}

/// Identifies a span across invocations.
pub fn span_identity(places: &Locations, invocation: &Invocation, span: &SourceSpan) -> (identity:
    Option<SpanIdentity>)
    ensures
        identity.deep_view() == span_identity_of(
            places.deep_view(),
            invocation.deep_view().sources,
            span.deep_view(),
        ),
{
    match find_source(&invocation.sources, &span.file) {
        None => None,
        Some(source) => {
            if span.start > span.end || span.end > source.byte_len {
                return None;
            }
            let path = if source.generated {
                source.remapped_path.clone()
            } else {
                match &source.local_path {
                    Some(path) => canonical(places, path.as_str()),
                    None => canonical(places, source.remapped_path.as_str()),
                }
            };
            Some(
                SpanIdentity {
                    path,
                    source_hash: source.source_hash.clone(),
                    generated: source.generated,
                    start: span.start,
                    end: span.end,
                },
            )
        },
    }
}

/// The identity of an optional span.
pub open spec fn optional_identity(
    places: LocationsView,
    sources: Seq<SourceFileView>,
    span: Option<SourceSpanView>,
) -> Option<SpanIdentityView> {
    match span {
        Some(span) => span_identity_of(places, sources, span),
        None => None,
    }
}

/// A target without its role; its kinds and crate types come sorted, each once.
pub open spec fn logical_target_of(
    places: LocationsView,
    target: CompilerTargetReportView,
) -> LogicalTargetView {
    LogicalTargetView {
        package_id: target.package_id,
        name: target.name,
        source: canonical_key(places.canonical, target.source),
        kinds: ascending::<String>(target.kinds.to_set()),
        crate_types: ascending::<String>(target.crate_types.to_set()),
    }
}

/// Takes the role off a target.
pub fn logical_target(places: &Locations, target: &CompilerTargetReport) -> (logical: LogicalTarget)
    ensures
        logical.deep_view() == logical_target_of(places.deep_view(), target.deep_view()),
{
    LogicalTarget {
        package_id: target.package_id.clone(),
        name: target.name.clone(),
        source: canonical_place(places, target.source.as_str()),
        kinds: sorted_unique(copy_list(&target.kinds)),
        crate_types: sorted_unique(copy_list(&target.crate_types)),
    }
}

/// The node that a definition belongs to: definitions of one place of a target share a node, and
/// a definition without a place has one of its own.
pub open spec fn definition_key_of(
    places: LocationsView,
    invocation_index: usize,
    input: GraphInvocationView,
    definition: DefinitionView,
) -> NodeKeyView {
    match optional_identity(places, input.invocation.sources, definition.span) {
        Some(span) => NodeKeyView::Definition(
            DefinitionKeyView {
                package_id: input.target.package_id,
                target: logical_target_of(places, input.target),
                definition_path: definition.definition_path,
                kind: definition.kind,
                span,
            },
        ),
        None => NodeKeyView::InvocationLocal(
            LocalKey { invocation: invocation_index, compiler_id: definition.compiler_id },
        ),
    }
}

/// Finds the node that a definition belongs to.
pub fn definition_key(
    places: &Locations,
    invocation_index: usize,
    input: &GraphInvocation<'_>,
    definition: &Definition,
) -> (key: NodeKey)
    ensures
        key.deep_view() == definition_key_of(
            places.deep_view(),
            invocation_index,
            input.deep_view(),
            definition.deep_view(),
        ),
{
    let identity = match &definition.span {
        Some(span) => span_identity(places, input.invocation, span),
        None => None,
    };
    match identity {
        Some(span) => NodeKey::Definition(
            DefinitionKey {
                package_id: input.target.package_id.clone(),
                target: logical_target(places, input.target),
                definition_path: definition.definition_path.clone(),
                kind: definition.kind,
                span,
            },
        ),
        None => NodeKey::InvocationLocal(
            LocalKey { invocation: invocation_index, compiler_id: definition.compiler_id },
        ),
    }
}

/// The declaration whose visibility a definition shares, where that visibility can be edited.
pub open spec fn visibility_key_of(
    places: LocationsView,
    input: GraphInvocationView,
    definition: DefinitionView,
) -> Option<VisibilityKeyView> {
    if !definition.visibility_editable {
        None
    } else {
        match optional_identity(places, input.invocation.sources, definition.span) {
            Some(span) => Some(VisibilityKeyView { kind: definition.kind, span }),
            None => None,
        }
    }
}

/// Finds the declaration whose visibility a definition shares.
pub fn definition_visibility_key(
    places: &Locations,
    input: &GraphInvocation<'_>,
    definition: &Definition,
) -> (key: Option<VisibilityKey>)
    ensures
        key.deep_view() == visibility_key_of(
            places.deep_view(),
            input.deep_view(),
            definition.deep_view(),
        ),
{
    if !definition.visibility_editable {
        return None;
    }
    match &definition.span {
        None => None,
        Some(span) => match span_identity(places, input.invocation, span) {
            Some(span) => Some(VisibilityKey { kind: definition.kind, span }),
            None => None,
        },
    }
}

/// Whether code of a target is part of the product or only serves to build and test it.
#[derive(Clone, Copy, Debug, PartialEq, Eq, Structural)]
pub enum GraphClass {
    Production,
    Nonproduction,
}

/// The class of a target; host code other than procedural macros has none, nor do build scripts.
pub open spec fn graph_class_of(target: CompilerTargetReportView) -> Option<GraphClass> {
    if target.compilation_context == "host"@ && !target.kinds.contains("proc-macro"@) {
        None
    } else if target.role == "production"@ {
        Some(GraphClass::Production)
    } else if nonproduction_role(target.role) {
        Some(GraphClass::Nonproduction)
    } else {
        None
    }
}

/// Whether a role is one of tests, benches and examples.
pub open spec fn nonproduction_role(role: Seq<char>) -> bool {
    role == "unit_test"@ || role == "test"@ || role == "bench"@ || role == "example"@
}

/// Whether a role is one of tests, benches and examples.
pub fn is_nonproduction_role(role: &str) -> (result: bool)
    ensures
        result == nonproduction_role(role@),
{
    same(role, "unit_test") || same(role, "test") || same(role, "bench") || same(role, "example")
}

/// The class of a target.
pub fn graph_class(target: &CompilerTargetReport) -> (class: Option<GraphClass>)
    ensures
        class == graph_class_of(target.deep_view()),
{
    if same(target.compilation_context.as_str(), "host") && !list_contains(
        &target.kinds,
        "proc-macro",
    ) {
        None
    } else if same(target.role.as_str(), "production") {
        Some(GraphClass::Production)
    } else if is_nonproduction_role(target.role.as_str()) {
        Some(GraphClass::Nonproduction)
    } else {
        None
    }
}

/// Whether a reference is part of what a definition shows to others.
pub open spec fn interface_kind(kind: ReferenceKind) -> bool {
    kind != ReferenceKind::Body
}

/// Whether a reference is part of what a definition shows to others.
pub fn is_interface(kind: ReferenceKind) -> (result: bool)
    ensures
        result == interface_kind(kind),
{
    match kind {
        ReferenceKind::Interface
        | ReferenceKind::Reexport
        | ReferenceKind::VisibilityParent
        | ReferenceKind::VisibilityRequirement => true,
        ReferenceKind::Body => false,
    }
}

/// How many definitions each invocation has.
pub open spec fn definition_counts(invocations: Seq<GraphInvocationView>) -> Seq<usize> {
    Seq::new(invocations.len(), |i: int| invocations[i].invocation.definitions.len() as usize)
}

/// How many roots each invocation has.
pub open spec fn root_counts(invocations: Seq<GraphInvocationView>) -> Seq<usize> {
    Seq::new(invocations.len(), |i: int| invocations[i].invocation.roots.len() as usize)
}

/// How many references each invocation has.
pub open spec fn reference_counts(invocations: Seq<GraphInvocationView>) -> Seq<usize> {
    Seq::new(invocations.len(), |i: int| invocations[i].invocation.references.len() as usize)
}

impl WorldView {
    /// The places of all definitions, invocation by invocation.
    pub open spec fn definition_cells(self) -> Seq<(usize, usize)> {
        cells(definition_counts(self.invocations))
    }

    /// The places of all roots, invocation by invocation.
    pub open spec fn root_cells(self) -> Seq<(usize, usize)> {
        cells(root_counts(self.invocations))
    }

    /// The places of all references, invocation by invocation.
    pub open spec fn reference_cells(self) -> Seq<(usize, usize)> {
        cells(reference_counts(self.invocations))
    }

    /// The invocation of a place.
    pub open spec fn input(self, cell: (usize, usize)) -> GraphInvocationView {
        self.invocations[cell.0 as int]
    }

    /// The definition at a place.
    pub open spec fn definition(self, cell: (usize, usize)) -> DefinitionView {
        self.invocations[cell.0 as int].invocation.definitions[cell.1 as int]
    }

    /// The root at a place.
    pub open spec fn root(self, cell: (usize, usize)) -> RootView {
        self.invocations[cell.0 as int].invocation.roots[cell.1 as int]
    }

    /// The reference at a place.
    pub open spec fn reference(self, cell: (usize, usize)) -> ReferenceView {
        self.invocations[cell.0 as int].invocation.references[cell.1 as int]
    }

    /// What identifies the node of a definition.
    pub open spec fn key(self, cell: (usize, usize)) -> NodeKeyView {
        definition_key_of(self.places, cell.0, self.input(cell), self.definition(cell))
    }

    /// The keys of the first definitions, each once, in order of first appearance.
    pub open spec fn keys_of(self, count: int) -> Seq<NodeKeyView>
        decreases count,
    {
        if count <= 0 {
            Seq::empty()
        } else {
            let earlier = self.keys_of(count - 1);
            let key = self.key(self.definition_cells()[count - 1]);
            if earlier.contains(key) {
                earlier
            } else {
                earlier.push(key)
            }
        }
    }

    /// The keys of all nodes, in the order of the nodes.
    pub open spec fn node_keys(self) -> Seq<NodeKeyView> {
        self.keys_of(self.definition_cells().len() as int)
    }

    /// The node of a definition.
    pub open spec fn node_of(self, cell: (usize, usize)) -> usize {
        self.node_keys().index_of(self.key(cell)) as usize
    }

    /// The definitions of a node, in their order.
    pub open spec fn members(self, node: int) -> Seq<(usize, usize)> {
        collected(self.definition_cells(), self.member_of(self.node_keys()[node]))
    }

    /// Picks the definitions with a key.
    pub open spec fn member_of(self, key: NodeKeyView) -> spec_fn((usize, usize)) -> Option<
        (usize, usize),
    > {
        |cell: (usize, usize)|
            if self.key(cell) == key {
                Some(cell)
            } else {
                None
            }
    }

    /// The nodes of the graph: each with its definitions.
    pub open spec fn nodes(self) -> Seq<Seq<(usize, usize)>> {
        Seq::new(self.node_keys().len(), |node: int| self.members(node))
    }

    /// The node of each compiler identity of an invocation, after the first definitions: of
    /// several definitions with one identity the last one counts.
    pub open spec fn local_nodes_of(self, count: int) -> Map<(usize, CompilerDefId), usize>
        decreases count,
    {
        if count <= 0 {
            Map::empty()
        } else {
            let cell = self.definition_cells()[count - 1];
            self.local_nodes_of(count - 1).insert(
                (cell.0, self.definition(cell).compiler_id),
                self.node_of(cell),
            )
        }
    }

    /// The node of each compiler identity of an invocation.
    pub open spec fn local_nodes(self) -> Map<(usize, CompilerDefId), usize> {
        self.local_nodes_of(self.definition_cells().len() as int)
    }

    /// Every cell lies within its invocation.
    pub proof fn lemma_definition_cells(self)
        requires
            self.invocations.len() <= usize::MAX,
            forall|i: int|
                0 <= i < self.invocations.len() ==> (
                #[trigger] self.invocations[i]).invocation.definitions.len() <= usize::MAX,
        ensures
            forall|k: int|
                0 <= k < self.definition_cells().len() ==> (
                #[trigger] self.definition_cells()[k]).0 < self.invocations.len()
                    && self.definition_cells()[k].1 < self.input(
                    self.definition_cells()[k],
                ).invocation.definitions.len(),
    {
        lemma_cells(definition_counts(self.invocations));
    }

    /// Keys stay where they are when more definitions are looked at, and no key comes twice.
    pub proof fn lemma_keys_grow(self, count: int, more: int)
        requires
            0 <= count <= more,
        ensures
            self.keys_of(count).len() <= self.keys_of(more).len(),
            self.keys_of(more).take(self.keys_of(count).len() as int) == self.keys_of(count),
            self.keys_of(more).no_duplicates(),
            self.keys_of(more).len() <= more,
        decreases more,
    {
        if more > 0 {
            if count == more {
                self.lemma_keys_grow(count - 1, count - 1);
                assert(self.keys_of(more).take(self.keys_of(count).len() as int) =~= self.keys_of(
                    count,
                ));
            } else {
                self.lemma_keys_grow(count, more - 1);
                assert(self.keys_of(more).take(self.keys_of(count).len() as int) =~= self.keys_of(
                    count,
                ));
            }
        } else {
            assert(self.keys_of(more).take(self.keys_of(count).len() as int) =~= self.keys_of(
                count,
            ));
        }
    }

    /// The key of a definition is among the keys from then on, at the place of its node.
    pub proof fn lemma_key_place(self, index: int, count: int)
        requires
            0 <= index < count <= self.definition_cells().len(),
        ensures
            self.keys_of(count).contains(self.key(self.definition_cells()[index])),
            self.keys_of(count).index_of(self.key(self.definition_cells()[index]))
                == self.node_keys().index_of(self.key(self.definition_cells()[index])),
            0 <= self.node_keys().index_of(self.key(self.definition_cells()[index]))
                < self.node_keys().len(),
            self.node_keys()[self.node_keys().index_of(self.key(self.definition_cells()[index]))]
                == self.key(self.definition_cells()[index]),
    {
        let total = self.definition_cells().len() as int;
        let key = self.key(self.definition_cells()[index]);
        self.lemma_keys_grow(index + 1, count);
        self.lemma_keys_grow(count, total);
        assert(self.keys_of(index + 1).contains(key)) by {
            let earlier = self.keys_of(index);
            if !earlier.contains(key) {
                assert(earlier.push(key)[earlier.len() as int] == key);
            }
        }
        let first = self.keys_of(index + 1);
        let k = choose|k: int| 0 <= k < first.len() && first[k] == key;
        assert(self.keys_of(count).take(self.keys_of(index + 1).len() as int)[k] == key);
        assert(self.keys_of(count)[k] == key);
        assert(self.node_keys().take(self.keys_of(count).len() as int)[k] == key);
        assert(self.node_keys()[k] == key);
        let a = self.keys_of(count).index_of(key);
        let b = self.node_keys().index_of(key);
        assert(self.keys_of(count)[a] == key);
        assert(self.node_keys()[b] == key);
        assert(self.keys_of(count).no_duplicates());
        assert(a == k);
        assert(b == k);
    }

    /// Every member of a node is a definition with its key.
    pub proof fn lemma_members(self, node: int, count: int)
        requires
            0 <= count <= self.definition_cells().len(),
        ensures
            forall|m: int|
                0 <= m < collected(
                    self.definition_cells().take(count),
                    self.member_of(self.node_keys()[node]),
                ).len() ==> self.definition_cells().take(count).contains(
                    #[trigger] collected(
                        self.definition_cells().take(count),
                        self.member_of(self.node_keys()[node]),
                    )[m],
                ) && self.key(
                    collected(
                        self.definition_cells().take(count),
                        self.member_of(self.node_keys()[node]),
                    )[m],
                ) == self.node_keys()[node],
        decreases count,
    {
        let all = self.definition_cells();
        let f = self.member_of(self.node_keys()[node]);
        if count > 0 {
            self.lemma_members(node, count - 1);
            lemma_collected_step(all, f, count - 1);
            let before = collected(all.take(count - 1), f);
            let after = collected(all.take(count), f);
            assert forall|m: int| 0 <= m < after.len() implies all.take(count).contains(
                #[trigger] after[m],
            ) && self.key(after[m]) == self.node_keys()[node] by {
                if m < before.len() {
                    assert(after[m] == before[m]);
                    let seen = all.take(count - 1);
                    let i = choose|i: int| 0 <= i < seen.len() && seen[i] == before[m];
                    assert(all.take(count)[i] == before[m]);
                } else {
                    assert(after[m] == all[count - 1]);
                    assert(all.take(count)[count - 1] == all[count - 1]);
                }
            }
        }
    }

    /// Every definition of a node lies within the world.
    pub proof fn lemma_nodes(self)
        requires
            self.invocations.len() <= usize::MAX,
            forall|i: int|
                0 <= i < self.invocations.len() ==> (
                #[trigger] self.invocations[i]).invocation.definitions.len() <= usize::MAX,
        ensures
            forall|node: int, m: int|
                0 <= node < self.nodes().len() && 0 <= m < self.nodes()[node].len() ==> (
                #[trigger] self.nodes()[node][m]).0 < self.invocations.len()
                    && self.nodes()[node][m].1 < self.input(
                    self.nodes()[node][m],
                ).invocation.definitions.len(),
    {
        let all = self.definition_cells();
        assert(all.take(all.len() as int) =~= all);
        self.lemma_definition_cells();
        assert forall|node: int, m: int|
            0 <= node < self.nodes().len() && 0 <= m < self.nodes()[node].len() implies (
        #[trigger] self.nodes()[node][m]).0 < self.invocations.len() && self.nodes()[node][m].1
            < self.input(self.nodes()[node][m]).invocation.definitions.len() by {
            self.lemma_members(node, all.len() as int);
            let cell = self.nodes()[node][m];
            assert(all.contains(cell));
            let k = choose|k: int| 0 <= k < all.len() && all[k] == cell;
            assert(all[k] == cell);
        }
    }

    /// A key that no definition had so far has no members yet.
    proof fn lemma_no_member(self, key: NodeKeyView, count: int)
        requires
            0 <= count <= self.definition_cells().len(),
            !self.keys_of(count).contains(key),
        ensures
            collected(self.definition_cells().take(count), self.member_of(key))
                == Seq::<(usize, usize)>::empty(),
        decreases count,
    {
        let all = self.definition_cells();
        if count > 0 {
            let earlier = self.keys_of(count - 1);
            let last = self.key(all[count - 1]);
            assert(self.keys_of(count).contains(last)) by {
                self.lemma_key_place(count - 1, count);
            }
            if earlier.contains(key) {
                let k = choose|k: int| 0 <= k < earlier.len() && earlier[k] == key;
                assert(self.keys_of(count)[k] == key);
            }
            self.lemma_no_member(key, count - 1);
            lemma_collected_step(all, self.member_of(key), count - 1);
        } else {
            assert(all.take(0) =~= Seq::<(usize, usize)>::empty());
        }
    }

    /// Every local node is a node of the graph, of an invocation of the world.
    pub proof fn lemma_local_nodes(self, count: int)
        requires
            0 <= count <= self.definition_cells().len(),
            self.definition_cells().len() <= usize::MAX,
        ensures
            forall|key: (usize, CompilerDefId)| #[trigger]
                self.local_nodes_of(count).contains_key(key) ==> self.local_nodes_of(count)[key]
                    < self.node_keys().len() && exists|k: int|
                    0 <= k < count && (#[trigger] self.definition_cells()[k]).0 == key.0
                        && self.definition(self.definition_cells()[k]).compiler_id == key.1,
        decreases count,
    {
        if count > 0 {
            self.lemma_local_nodes(count - 1);
            self.lemma_key_place(count - 1, self.definition_cells().len() as int);
            self.lemma_keys_grow(0, self.definition_cells().len() as int);
            let cell = self.definition_cells()[count - 1];
            assert forall|key: (usize, CompilerDefId)| #[trigger]
                self.local_nodes_of(count).contains_key(key) implies self.local_nodes_of(count)[key]
                < self.node_keys().len() && exists|k: int|
                0 <= k < count && (#[trigger] self.definition_cells()[k]).0 == key.0
                    && self.definition(self.definition_cells()[k]).compiler_id == key.1 by {
                if key == (cell.0, self.definition(cell).compiler_id) {
                    assert(self.definition_cells()[count - 1].0 == key.0);
                } else {
                    assert(self.local_nodes_of(count - 1).contains_key(key));
                }
            }
        }
    }
}

/// Lengths of vectors fit a machine word.
pub proof fn lemma_world_fits(world: &World<'_>)
    ensures
        world.deep_view().invocations.len() <= usize::MAX,
        forall|i: int|
            0 <= i < world.deep_view().invocations.len() ==> (
            #[trigger] world.deep_view().invocations[i]).invocation.definitions.len() <= usize::MAX
                && world.deep_view().invocations[i].invocation.roots.len() <= usize::MAX
                && world.deep_view().invocations[i].invocation.references.len() <= usize::MAX,
{
    assert(world.invocations.len() == world.deep_view().invocations.len());
    assert forall|i: int| 0 <= i < world.deep_view().invocations.len() implies (
    #[trigger] world.deep_view().invocations[i]).invocation.definitions.len() <= usize::MAX
        && world.deep_view().invocations[i].invocation.roots.len() <= usize::MAX
        && world.deep_view().invocations[i].invocation.references.len() <= usize::MAX by {
        let input = world.invocations[i];
        assert(world.deep_view().invocations[i] == input.deep_view());
        assert(input.invocation.definitions.len() == input.deep_view().invocation.definitions.len());
        assert(input.invocation.roots.len() == input.deep_view().invocation.roots.len());
        assert(input.invocation.references.len() == input.deep_view().invocation.references.len());
    }
}

/// A definition of the world.
fn definition_at<'a>(world: &World<'a>, cell: (usize, usize)) -> (definition: &'a Definition)
    requires
        cell.0 < world.deep_view().invocations.len(),
        cell.1 < world.deep_view().input(cell).invocation.definitions.len(),
    ensures
        definition.deep_view() == world.deep_view().definition(cell),
{
    proof {
        assert(world.deep_view().invocations[cell.0 as int]
            == world.invocations[cell.0 as int].deep_view());
    }
    &world.invocations[cell.0].invocation.definitions[cell.1]
}

/// The definitions of the nodes, and the node of each compiler identity of an invocation.
pub struct NodeTable {
    pub nodes: Vec<Vec<(usize, usize)>>,
    pub local: SortedMap<(usize, CompilerDefId), usize>,
}

/// Gathers the definitions of all invocations into nodes.
pub fn build_nodes(world: &World<'_>) -> (table: NodeTable)
    ensures
        table.nodes.deep_view() == world.deep_view().nodes(),
        table.local.wf(),
        table.local.deep_view() == world.deep_view().local_nodes(),
        world.deep_view().definition_cells().len() <= usize::MAX,
{
    let ghost w = world.deep_view();
    proof {
        lemma_world_fits(world);
        w.lemma_definition_cells();
    }
    let mut counts: Vec<usize> = Vec::new();
    let mut index: usize = 0;
    while index < world.invocations.len()
        invariant
            w == world.deep_view(),
            index <= world.invocations.len(),
            counts@ =~= definition_counts(w.invocations).take(index as int),
        decreases world.invocations.len() - index,
    {
        proof {
            assert(w.invocations[index as int] == world.invocations[index as int].deep_view());
            assert(world.invocations[index as int].invocation.definitions.len()
                == w.invocations[index as int].invocation.definitions.len());
        }
        counts.push(world.invocations[index].invocation.definitions.len());
        index = index + 1;
    }
    proof {
        assert(counts@ =~= definition_counts(w.invocations));
    }
    let list = list_cells(&counts);
    let ghost all = w.definition_cells();
    let mut by_key: SortedMap<NodeKey, usize> = SortedMap::new();
    let mut local: SortedMap<(usize, CompilerDefId), usize> = SortedMap::new();
    let mut nodes: Vec<Vec<(usize, usize)>> = Vec::new();
    let mut done: usize = 0;
    proof {
        assert(list.len() == all.len());
        assert(by_key.deep_view().dom() =~= w.keys_of(0).to_set());
    }
    while done < list.len()
        invariant
            w == world.deep_view(),
            all == w.definition_cells(),
            list@ == all,
            done <= list.len(),
            by_key.wf(),
            local.wf(),
            forall|k: int|
                0 <= k < all.len() ==> (#[trigger] all[k]).0 < w.invocations.len() && all[k].1
                    < w.input(all[k]).invocation.definitions.len(),
            by_key.deep_view().dom() == w.keys_of(done as int).to_set(),
            forall|n: int|
                0 <= n < w.keys_of(done as int).len() ==> by_key.deep_view()[#[trigger] w.keys_of(
                    done as int,
                )[n]] == n,
            nodes.len() == w.keys_of(done as int).len(),
            forall|n: int|
                0 <= n < nodes.len() ==> (#[trigger] nodes@[n])@ == collected(
                    all.take(done as int),
                    w.member_of(w.keys_of(done as int)[n]),
                ),
            local.deep_view() == w.local_nodes_of(done as int),
        decreases list.len() - done,
    {
        let cell = list[done];
        let ghost count = done as int;
        let ghost keys = w.keys_of(count);
        let ghost held = nodes@;
        proof {
            assert(all[count] == cell);
            w.lemma_keys_grow(count, count + 1);
            w.lemma_keys_grow(count, count);
            w.lemma_key_place(count, count + 1);
            assert(w.invocations[cell.0 as int] == world.invocations[cell.0 as int].deep_view());
        }
        let definition = definition_at(world, cell);
        let key = definition_key(world.places, cell.0, &world.invocations[cell.0], definition);
        let ghost key_view = key.deep_view();
        let known = match by_key.get(&key) {
            Some(node) => Some(*node),
            None => None,
        };
        let node: usize = match known {
            Some(node) => {
                proof {
                    assert(keys.contains(key_view));
                    let n = choose|n: int| 0 <= n < keys.len() && keys[n] == key_view;
                    assert(by_key.deep_view()[keys[n]] == n);
                    assert(w.keys_of(count + 1) == keys);
                    assert(keys.index_of(key_view) == n);
                }
                node
            },
            None => {
                let node: usize = nodes.len();
                nodes.push(Vec::new());
                by_key.insert(key, node);
                proof {
                    assert(!keys.to_set().contains(key_view));
                    assert(!keys.contains(key_view));
                    assert(w.keys_of(count + 1) == keys.push(key_view));
                    assert(w.keys_of(count + 1)[keys.len() as int] == key_view);
                    assert(w.keys_of(count + 1).index_of(key_view) == keys.len());
                }
                node
            },
        };
        let ghost grown = w.keys_of(count + 1);
        proof {
            assert(node == w.node_of(cell));
            assert(grown[node as int] == key_view);
            assert(by_key.deep_view().dom() =~= grown.to_set()) by {
                assert forall|k: NodeKeyView| by_key.deep_view().dom().contains(k)
                    <==> grown.to_set().contains(k) by {
                    if keys.contains(k) {
                        let n = choose|n: int| 0 <= n < keys.len() && keys[n] == k;
                        assert(grown[n] == k);
                    }
                    if grown.contains(k) {
                        let n = choose|n: int| 0 <= n < grown.len() && grown[n] == k;
                        if n < keys.len() {
                            assert(keys[n] == k);
                        }
                    }
                }
            }
            assert forall|n: int| 0 <= n < grown.len() implies by_key.deep_view()[#[trigger] grown[n]]
                == n by {
                if n < keys.len() {
                    assert(grown[n] == keys[n]);
                    assert(by_key.deep_view()[keys[n]] == n);
                }
            }
            assert forall|n: int| 0 <= n < nodes.len() implies (#[trigger] nodes@[n])@ == collected(
                all.take(count),
                w.member_of(grown[n]),
            ) by {
                if n < held.len() {
                    assert(nodes@[n] == held[n]);
                    assert(grown[n] == keys[n]);
                } else {
                    w.lemma_no_member(grown[n], count);
                }
            }
        }
        let ghost before = nodes@;
        nodes[node].push(cell);
        local.insert((cell.0, definition.compiler_id), node);
        proof {
            assert forall|n: int| 0 <= n < nodes.len() implies (#[trigger] nodes@[n])@ == collected(
                all.take(count + 1),
                w.member_of(grown[n]),
            ) by {
                lemma_collected_step(all, w.member_of(grown[n]), count);
                assert(grown.no_duplicates());
                if n == node {
                    assert(nodes@[n]@ == before[n]@.push(cell));
                } else {
                    assert(nodes@[n] == before[n]);
                    assert(grown[n] != grown[node as int]);
                }
            }
        }
        done = done + 1;
    }
    proof {
        assert(all.take(all.len() as int) =~= all);
        assert(nodes.deep_view() =~= w.nodes()) by {
            assert forall|n: int| 0 <= n < nodes.len() implies nodes.deep_view()[n]
                == w.nodes()[n] by {
                assert(nodes@[n]@ == collected(all.take(all.len() as int), w.member_of(w.node_keys()[n])));
                assert(nodes.deep_view()[n] == nodes@[n].deep_view());
                assert(nodes@[n].deep_view() =~= nodes@[n]@);
            }
        }
    }
    NodeTable { nodes, local }
}

/// The state of a compiler identity in an invocation that defines it.
pub open spec fn local_state(
    local: Map<(usize, CompilerDefId), usize>,
    invocation: usize,
    id: CompilerDefId,
) -> Option<GraphState> {
    if local.contains_key((invocation, id)) {
        Some(GraphState { invocation, node: local[(invocation, id)] })
    } else {
        None
    }
}

/// The states of a compiler identity in all invocations that define it.
pub open spec fn global_states(
    local: Map<(usize, CompilerDefId), usize>,
    id: CompilerDefId,
) -> Set<GraphState> {
    Set::new(|state: GraphState| local_state(local, state.invocation, id) == Some(state))
}

/// Whether an invocation defines something of a crate.
pub open spec fn selected_crate(
    local: Map<(usize, CompilerDefId), usize>,
    stable_crate_id: u64,
) -> bool {
    exists|key: (usize, CompilerDefId)| #[trigger]
        local.contains_key(key) && key.1.stable_crate_id == stable_crate_id
}

/// Whether states of different nodes are among the given ones.
pub open spec fn ambiguous(states: Set<GraphState>) -> bool {
    exists|a: GraphState, b: GraphState| #[trigger]
        states.contains(a) && #[trigger] states.contains(b) && a.node != b.node
}

/// What a compiler identity stands for in an invocation: the state in the invocation itself where
/// it defines it, else all states that define it, provided they agree on the node.
pub open spec fn targets_of(
    local: Map<(usize, CompilerDefId), usize>,
    invocation: usize,
    id: CompilerDefId,
) -> Option<Set<GraphState>> {
    match local_state(local, invocation, id) {
        Some(state) => Some(Set::empty().insert(state)),
        None => if ambiguous(global_states(local, id)) {
            None
        } else {
            Some(global_states(local, id))
        },
    }
}

/// The states that compiler identities stand for.
pub struct Resolver {
    pub local: SortedMap<(usize, CompilerDefId), usize>,
    pub global: Groups<CompilerDefId, GraphState>,
    pub crates: SortedSet<u64>,
}

impl Resolver {
    /// The tables agree with the local nodes.
    pub open spec fn wf(&self) -> bool {
        &&& self.local.wf()
        &&& self.global.wf()
        &&& self.crates.wf()
        &&& forall|id: CompilerDefId| #[trigger]
            group_at(self.global.deep_view(), id) == global_states(self.local.deep_view(), id)
        &&& forall|crate_id: u64| #[trigger]
            self.crates.deep_view().contains(crate_id) == selected_crate(
                self.local.deep_view(),
                crate_id,
            )
    }

    /// Makes the tables for the local nodes.
    pub fn new(local: SortedMap<(usize, CompilerDefId), usize>) -> (resolver: Self)
        requires
            local.wf(),
        ensures
            resolver.wf(),
            resolver.local == local,
    {
        let mut global: Groups<CompilerDefId, GraphState> = Groups::new();
        let mut crates: SortedSet<u64> = SortedSet::new();
        let ghost map = local.deep_view();
        let ghost all = local.key_seq();
        let ghost state_of = |key: (usize, CompilerDefId)|
            Some((key.1, GraphState { invocation: key.0, node: map[key] }));
        let ghost crate_of = |key: (usize, CompilerDefId)| Some(key.1.stable_crate_id);
        let mut index: usize = 0;
        proof {
            local.lemma_places();
            lemma_grouped_ends(all, state_of);
            lemma_image_ends(all, crate_of);
        }
        while index < local.len()
            invariant
                local.wf(),
                map == local.deep_view(),
                all == local.key_seq(),
                state_of == |key: (usize, CompilerDefId)|
                    Some((key.1, GraphState { invocation: key.0, node: map[key] })),
                crate_of == |key: (usize, CompilerDefId)| Some(key.1.stable_crate_id),
                index <= all.len(),
                global.wf(),
                crates.wf(),
                global.deep_view() == grouped(all.take(index as int), state_of),
                crates.deep_view() == image(all.take(index as int), crate_of),
            decreases all.len() - index,
        {
            proof {
                local.lemma_places();
                lemma_grouped_step(all, state_of, index as int);
                lemma_image_step(all, crate_of, index as int);
                assert(map.dom().contains(all[index as int]));
            }
            let key: (usize, CompilerDefId) = *local.key_at(index);
            let node: usize = *local.value_at(index);
            global.add(key.1, GraphState { invocation: key.0, node });
            crates.insert(key.1.stable_crate_id);
            index = index + 1;
        }
        proof {
            lemma_grouped_ends(all, state_of);
            local.lemma_places();
            assert forall|id: CompilerDefId| #[trigger]
                group_at(global.deep_view(), id) == global_states(map, id) by {
                assert forall|state: GraphState| group_at(global.deep_view(), id).contains(state)
                    <==> global_states(map, id).contains(state) by {
                    if group_at(global.deep_view(), id).contains(state) {
                        let i = choose|i: int|
                            0 <= i < all.len() && state_of(#[trigger] all[i]) == Some((id, state));
                        assert(map.dom().contains(all[i]));
                        assert(all[i] == (state.invocation, id));
                    }
                    if global_states(map, id).contains(state) {
                        let key = (state.invocation, id);
                        assert(map.dom().contains(key));
                        assert(all.contains(key));
                        let i = choose|i: int| 0 <= i < all.len() && all[i] == key;
                        assert(state_of(all[i]) == Some((id, state)));
                        assert(state_of(all[i]) is Some && (state_of(all[i])->0).0 == id);
                    }
                }
                assert(group_at(global.deep_view(), id) =~= global_states(map, id));
            }
            assert forall|crate_id: u64| #[trigger]
                crates.deep_view().contains(crate_id) == selected_crate(map, crate_id) by {
                if crates.deep_view().contains(crate_id) {
                    let i = choose|i: int|
                        0 <= i < all.len() && crate_of(#[trigger] all[i]) == Some(crate_id);
                    assert(map.dom().contains(all[i]));
                    assert(map.contains_key(all[i]));
                }
                if selected_crate(map, crate_id) {
                    let key = choose|key: (usize, CompilerDefId)| #[trigger]
                        map.contains_key(key) && key.1.stable_crate_id == crate_id;
                    assert(all.contains(key));
                    let i = choose|i: int| 0 <= i < all.len() && all[i] == key;
                    assert(crate_of(all[i]) == Some(crate_id));
                }
            }
        }
        Resolver { local, global, crates }
    }

    /// The state of a compiler identity in an invocation that defines it.
    pub fn local_state(&self, invocation: usize, id: CompilerDefId) -> (state: Option<GraphState>)
        requires
            self.wf(),
        ensures
            state == local_state(self.local.deep_view(), invocation, id),
    {
        match self.local.get(&(invocation, id)) {
            Some(node) => Some(GraphState { invocation, node: *node }),
            None => None,
        }
    }

    /// What a compiler identity stands for in an invocation; nothing where that is ambiguous.
    pub fn resolve_targets(&self, invocation: usize, id: CompilerDefId) -> (targets: Option<
        SortedSet<GraphState>,
    >)
        requires
            self.wf(),
        ensures
            targets is Some == targets_of(self.local.deep_view(), invocation, id) is Some,
            targets matches Some(set) ==> set.wf() && set.deep_view() == targets_of(
                self.local.deep_view(),
                invocation,
                id,
            )->0,
    {
        let ghost map = self.local.deep_view();
        if let Some(state) = self.local_state(invocation, id) {
            let mut only: SortedSet<GraphState> = SortedSet::new();
            only.insert(state);
            return Some(only);
        }
        let ghost wanted = group_at(self.global.deep_view(), id);
        proof {
            assert(wanted == global_states(map, id));
        }
        match self.global.get(&id) {
            None => {
                let none: SortedSet<GraphState> = SortedSet::new();
                Some(none)
            },
            Some(states) => {
                let mut copy: SortedSet<GraphState> = SortedSet::new();
                let ghost all = states.seq();
                let mut index: usize = 0;
                proof {
                    states.lemma_seq();
                    assert(all.take(0).to_set() =~= Set::<GraphState>::empty());
                }
                while index < states.len()
                    invariant
                        states.wf(),
                        copy.wf(),
                        all == states.seq(),
                        wanted == states.deep_view(),
                        wanted == global_states(map, id),
                        map == self.local.deep_view(),
                        targets_of(map, invocation, id) == if ambiguous(wanted) {
                            None
                        } else {
                            Some(wanted)
                        },
                        index <= all.len(),
                        copy.deep_view() == all.take(index as int).to_set(),
                        forall|i: int| 0 <= i < index ==> (#[trigger] all[i]).node == all[0].node,
                    decreases all.len() - index,
                {
                    let state: GraphState = *states.get(index);
                    proof {
                        crate::collections::lemma_prefix_set(all, index as int);
                        assert(all.contains(all[index as int]));
                        assert(all.contains(all[0]));
                        assert(wanted.contains(all[index as int]));
                        assert(wanted.contains(all[0]));
                    }
                    if state.node != states.get(0).node {
                        return None;
                    }
                    copy.insert(state);
                    index = index + 1;
                }
                proof {
                    assert(all.take(all.len() as int) =~= all);
                    if ambiguous(wanted) {
                        let (a, b) = choose|a: GraphState, b: GraphState| #[trigger]
                            wanted.contains(a) && #[trigger] wanted.contains(b) && a.node != b.node;
                        let i = choose|i: int| 0 <= i < all.len() && all[i] == a;
                        let j = choose|j: int| 0 <= j < all.len() && all[j] == b;
                        assert(all[i].node == all[j].node);
                    }
                }
                Some(copy)
            },
        }
    }
}

/// Why definitions whose dead code is allowed are not reported.
pub open spec fn dead_code_allowed() -> Seq<char> {
    "dead_code is explicitly allowed for this definition"@
}

impl WorldView {
    /// The state of a root.
    pub open spec fn root_state(self, cell: (usize, usize)) -> Option<GraphState> {
        local_state(self.local_nodes(), cell.0, self.root(cell).definition)
    }

    /// The complaint about a root without a state.
    pub open spec fn root_error(self) -> spec_fn((usize, usize)) -> Option<Seq<char>> {
        |cell: (usize, usize)|
            match self.root_state(cell) {
                Some(_) => None,
                None => Some(
                    self.input(cell).invocation.started.merge_key + " root "@ + self.root(cell).id
                        + " has no local graph node"@,
                ),
            }
    }

    /// The evidence that a root gives for its state.
    pub open spec fn root_evidence(self) -> spec_fn((usize, usize)) -> Option<
        (GraphState, RootEvidenceView),
    > {
        |cell: (usize, usize)|
            match self.root_state(cell) {
                Some(state) => Some(
                    (
                        state,
                        RootEvidenceView {
                            kind: self.root(cell).kind,
                            reason: self.root(cell).reason,
                        },
                    ),
                ),
                None => None,
            }
    }

    /// The state that a root keeps alive for targets of a class.
    pub open spec fn live_root(self, class: GraphClass) -> spec_fn((usize, usize)) -> Option<
        GraphState,
    > {
        |cell: (usize, usize)|
            if self.root(cell).kind != RootKind::RequiredPublic && graph_class_of(
                self.input(cell).target,
            ) == Some(class) {
                self.root_state(cell)
            } else {
                None
            }
    }

    /// The reason for which a root has to be public.
    pub open spec fn required_root(self) -> spec_fn((usize, usize)) -> Option<
        (GraphState, Seq<char>),
    > {
        |cell: (usize, usize)|
            match self.root_state(cell) {
                Some(state) if self.root(cell).kind == RootKind::RequiredPublic => Some(
                    (state, self.root(cell).reason),
                ),
                _ => None,
            }
    }

    /// The node whose dead code is allowed by a root.
    pub open spec fn suppressed_root(self) -> spec_fn((usize, usize)) -> Option<usize> {
        |cell: (usize, usize)|
            match self.root_state(cell) {
                Some(state) if self.root(cell).kind == RootKind::Conservative && self.root(
                    cell,
                ).reason == dead_code_allowed() => Some(state.node),
                _ => None,
            }
    }
}

/// What the roots of all invocations say.
pub struct RootFacts {
    pub roots: Groups<GraphState, RootEvidence>,
    pub production: SortedSet<GraphState>,
    pub nonproduction: SortedSet<GraphState>,
    pub suppressed: SortedSet<usize>,
    pub required: Groups<GraphState, String>,
    pub errors: SortedSet<String>,
}

impl RootFacts {
    /// The facts are those of the first roots of a world.
    pub open spec fn describes(&self, world: WorldView, count: int) -> bool {
        let some = world.root_cells().take(count);
        &&& self.roots.wf()
        &&& self.production.wf()
        &&& self.nonproduction.wf()
        &&& self.suppressed.wf()
        &&& self.required.wf()
        &&& self.errors.wf()
        &&& self.roots.deep_view() == grouped(some, world.root_evidence())
        &&& self.production.deep_view() == image(some, world.live_root(GraphClass::Production))
        &&& self.nonproduction.deep_view() == image(
            some,
            world.live_root(GraphClass::Nonproduction),
        )
        &&& self.suppressed.deep_view() == image(some, world.suppressed_root())
        &&& self.required.deep_view() == grouped(some, world.required_root())
        &&& self.errors.deep_view() == image(some, world.root_error())
    }
}

/// Gathers what the roots of all invocations say.
pub fn collect_roots(world: &World<'_>, resolver: &Resolver) -> (facts: RootFacts)
    requires
        resolver.wf(),
        resolver.local.deep_view() == world.deep_view().local_nodes(),
    ensures
        facts.describes(world.deep_view(), world.deep_view().root_cells().len() as int),
{
    let ghost w = world.deep_view();
    proof {
        lemma_world_fits(world);
        lemma_cells(root_counts(w.invocations));
    }
    let mut counts: Vec<usize> = Vec::new();
    let mut index: usize = 0;
    while index < world.invocations.len()
        invariant
            w == world.deep_view(),
            index <= world.invocations.len(),
            counts@ =~= root_counts(w.invocations).take(index as int),
        decreases world.invocations.len() - index,
    {
        proof {
            assert(w.invocations[index as int] == world.invocations[index as int].deep_view());
            assert(world.invocations[index as int].invocation.roots.len()
                == w.invocations[index as int].invocation.roots.len());
        }
        counts.push(world.invocations[index].invocation.roots.len());
        index = index + 1;
    }
    proof {
        assert(counts@ =~= root_counts(w.invocations));
    }
    let list = list_cells(&counts);
    let ghost all = w.root_cells();
    let mut facts = RootFacts {
        roots: Groups::new(),
        production: SortedSet::new(),
        nonproduction: SortedSet::new(),
        suppressed: SortedSet::new(),
        required: Groups::new(),
        errors: SortedSet::new(),
    };
    let mut done: usize = 0;
    proof {
        lemma_grouped_ends(all, w.root_evidence());
        lemma_image_ends(all, w.live_root(GraphClass::Production));
        lemma_image_ends(all, w.live_root(GraphClass::Nonproduction));
        lemma_image_ends(all, w.suppressed_root());
        lemma_grouped_ends(all, w.required_root());
        lemma_image_ends(all, w.root_error());
    }
    while done < list.len()
        invariant
            w == world.deep_view(),
            all == w.root_cells(),
            list@ == all,
            done <= list.len(),
            resolver.wf(),
            resolver.local.deep_view() == w.local_nodes(),
            forall|k: int|
                0 <= k < all.len() ==> (#[trigger] all[k]).0 < root_counts(w.invocations).len()
                    && all[k].1 < root_counts(w.invocations)[all[k].0 as int],
            facts.describes(w, done as int),
        decreases list.len() - done,
    {
        let cell = list[done];
        proof {
            let count = done as int;
            assert(all[count] == cell);
            assert(w.invocations[cell.0 as int] == world.invocations[cell.0 as int].deep_view());
            lemma_grouped_step(all, w.root_evidence(), count);
            lemma_image_step(all, w.live_root(GraphClass::Production), count);
            lemma_image_step(all, w.live_root(GraphClass::Nonproduction), count);
            lemma_image_step(all, w.suppressed_root(), count);
            lemma_grouped_step(all, w.required_root(), count);
            lemma_image_step(all, w.root_error(), count);
        }
        let input = &world.invocations[cell.0];
        let root: &Root = &input.invocation.roots[cell.1];
        proof {
            assert(root.deep_view() == w.root(cell));
        }
        match resolver.local_state(cell.0, root.definition) {
            None => {
                let mut message = input.invocation.started.merge_key.0.clone();
                message.append(" root ");
                message.append(root.id.0.as_str());
                message.append(" has no local graph node");
                facts.errors.insert(message);
            },
            Some(state) => {
                facts.roots.add(
                    state,
                    RootEvidence { kind: root.kind, reason: root.reason.clone() },
                );
                match root.kind {
                    RootKind::EntryPoint | RootKind::Conservative => match graph_class(
                        input.target,
                    ) {
                        Some(GraphClass::Production) => {
                            facts.production.insert(state);
                        },
                        Some(GraphClass::Nonproduction) => {
                            facts.nonproduction.insert(state);
                        },
                        None => {},
                    },
                    RootKind::RequiredPublic => {
                        facts.required.add(state, root.reason.clone());
                    },
                }
                if root.kind == RootKind::Conservative && same(
                    root.reason.as_str(),
                    "dead_code is explicitly allowed for this definition",
                ) {
                    facts.suppressed.insert(state.node);
                }
            },
        }
        done = done + 1;
    }
    proof {
        assert(all.take(all.len() as int) =~= all);
    }
    facts
}

impl WorldView {
    /// The edges that a reference makes: one for each state that its target stands for.
    pub open spec fn edges_at(self) -> spec_fn((usize, usize)) -> Set<ReferenceEdge> {
        |cell: (usize, usize)|
            match (
                local_state(self.local_nodes(), cell.0, self.reference(cell).from),
                targets_of(self.local_nodes(), cell.0, self.reference(cell).to),
            ) {
                (Some(from), Some(targets)) => edges_to(
                    from,
                    targets,
                    self.reference(cell).kind,
                    cell,
                ),
                _ => Set::empty(),
            }
    }

    /// The complaint about a reference that cannot be placed in the graph.
    pub open spec fn reference_error(self) -> spec_fn((usize, usize)) -> Option<Seq<char>> {
        |cell: (usize, usize)|
            {
                let reference = self.reference(cell);
                let start = self.input(cell).invocation.started.merge_key + " reference "@
                    + reference.id;
                match local_state(self.local_nodes(), cell.0, reference.from) {
                    None => Some(start + " has no source graph node"@),
                    Some(_) => match targets_of(self.local_nodes(), cell.0, reference.to) {
                        None => Some(start + " has an ambiguous or missing selected target"@),
                        Some(targets) => if targets == Set::<GraphState>::empty()
                            && selected_crate(
                            self.local_nodes(),
                            reference.to.stable_crate_id,
                        ) {
                            Some(start + " has a missing selected target"@)
                        } else {
                            None
                        },
                    },
                }
            }
    }

    /// All edges of the graph.
    pub open spec fn reference_edges(self) -> Set<ReferenceEdge> {
        flat_image(self.reference_cells(), self.edges_at())
    }
}

/// The edges from a state to each of several targets.
pub open spec fn edges_to(
    from: GraphState,
    targets: Set<GraphState>,
    kind: ReferenceKind,
    cell: (usize, usize),
) -> Set<ReferenceEdge> {
    Set::new(
        |edge: ReferenceEdge|
            {
                &&& edge.from == from
                &&& targets.contains(edge.to)
                &&& edge.kind == kind
                &&& edge.invocation == cell.0
                &&& edge.reference == cell.1
            },
    )
}

/// The edges of the graph, and the complaints about references that make none.
pub struct EdgeFacts {
    pub edges: SortedSet<ReferenceEdge>,
    pub errors: SortedSet<String>,
}

/// Gathers the references of all invocations.
pub fn collect_edges(world: &World<'_>, resolver: &Resolver) -> (facts: EdgeFacts)
    requires
        resolver.wf(),
        resolver.local.deep_view() == world.deep_view().local_nodes(),
    ensures
        facts.edges.wf(),
        facts.errors.wf(),
        facts.edges.deep_view() == world.deep_view().reference_edges(),
        facts.errors.deep_view() == image(
            world.deep_view().reference_cells(),
            world.deep_view().reference_error(),
        ),
{
    let ghost w = world.deep_view();
    proof {
        lemma_world_fits(world);
        lemma_cells(reference_counts(w.invocations));
    }
    let mut counts: Vec<usize> = Vec::new();
    let mut index: usize = 0;
    while index < world.invocations.len()
        invariant
            w == world.deep_view(),
            index <= world.invocations.len(),
            counts@ =~= reference_counts(w.invocations).take(index as int),
        decreases world.invocations.len() - index,
    {
        proof {
            assert(w.invocations[index as int] == world.invocations[index as int].deep_view());
            assert(world.invocations[index as int].invocation.references.len()
                == w.invocations[index as int].invocation.references.len());
        }
        counts.push(world.invocations[index].invocation.references.len());
        index = index + 1;
    }
    proof {
        assert(counts@ =~= reference_counts(w.invocations));
    }
    let list = list_cells(&counts);
    let ghost all = w.reference_cells();
    let mut edges: SortedSet<ReferenceEdge> = SortedSet::new();
    let mut errors: SortedSet<String> = SortedSet::new();
    let mut done: usize = 0;
    proof {
        lemma_image_ends(all, w.reference_error());
        assert(flat_image(all.take(0), w.edges_at()) =~= Set::<ReferenceEdge>::empty());
    }
    while done < list.len()
        invariant
            w == world.deep_view(),
            all == w.reference_cells(),
            list@ == all,
            done <= list.len(),
            resolver.wf(),
            resolver.local.deep_view() == w.local_nodes(),
            forall|k: int|
                0 <= k < all.len() ==> (#[trigger] all[k]).0 < reference_counts(
                    w.invocations,
                ).len() && all[k].1 < reference_counts(w.invocations)[all[k].0 as int],
            edges.wf(),
            errors.wf(),
            edges.deep_view() == flat_image(all.take(done as int), w.edges_at()),
            errors.deep_view() == image(all.take(done as int), w.reference_error()),
        decreases list.len() - done,
    {
        let cell = list[done];
        let ghost count = done as int;
        let ghost before = edges.deep_view();
        proof {
            assert(all[count] == cell);
            assert(w.invocations[cell.0 as int] == world.invocations[cell.0 as int].deep_view());
            lemma_flat_image_step(all, w.edges_at(), count);
            lemma_image_step(all, w.reference_error(), count);
        }
        let input = &world.invocations[cell.0];
        let reference: &Reference = &input.invocation.references[cell.1];
        proof {
            assert(reference.deep_view() == w.reference(cell));
            assert(before.union(Set::<ReferenceEdge>::empty()) =~= before);
        }
        let mut message = input.invocation.started.merge_key.0.clone();
        message.append(" reference ");
        message.append(reference.id.0.as_str());
        match resolver.local_state(cell.0, reference.from) {
            None => {
                message.append(" has no source graph node");
                errors.insert(message);
            },
            Some(from) => match resolver.resolve_targets(cell.0, reference.to) {
                None => {
                    message.append(" has an ambiguous or missing selected target");
                    errors.insert(message);
                },
                Some(targets) => {
                    let ghost wanted = targets.deep_view();
                    let ghost kind = reference.kind;
                    proof {
                        targets.lemma_seq();
                    }
                    if targets.len() == 0 {
                        proof {
                            assert(targets.seq() =~= Seq::<GraphState>::empty());
                            assert(wanted =~= Set::<GraphState>::empty());
                            assert(edges_to(from, wanted, kind, cell) =~= Set::<ReferenceEdge>::empty());
                        }
                        if resolver.crates.contains(&reference.to.stable_crate_id) {
                            message.append(" has a missing selected target");
                            errors.insert(message);
                        }
                    } else {
                        proof {
                            assert(targets.seq().contains(targets.seq()[0]));
                            assert(wanted.contains(targets.seq()[0]));
                        }
                        let mut next: usize = 0;
                        proof {
                            assert(edges_to(
                                from,
                                targets.seq().take(0).to_set(),
                                kind,
                                cell,
                            ) =~= Set::<ReferenceEdge>::empty());
                        }
                        while next < targets.len()
                            invariant
                                targets.wf(),
                                edges.wf(),
                                kind == reference.kind,
                                next <= targets.seq().len(),
                                edges.deep_view() == before.union(
                                    edges_to(
                                        from,
                                        targets.seq().take(next as int).to_set(),
                                        kind,
                                        cell,
                                    ),
                                ),
                            decreases targets.seq().len() - next,
                        {
                            let to: GraphState = *targets.get(next);
                            let edge = ReferenceEdge {
                                from,
                                to,
                                kind: reference.kind,
                                invocation: cell.0,
                                reference: cell.1,
                            };
                            let ghost had = edges.deep_view();
                            edges.insert(edge);
                            proof {
                                let short = targets.seq().take(next as int);
                                crate::collections::lemma_prefix_set(targets.seq(), next as int);
                                assert(edges.deep_view() =~= before.union(
                                    edges_to(
                                        from,
                                        targets.seq().take(next + 1).to_set(),
                                        kind,
                                        cell,
                                    ),
                                ));
                            }
                            next = next + 1;
                        }
                        proof {
                            assert(targets.seq().take(targets.seq().len() as int)
                                =~= targets.seq());
                        }
                    }
                },
            },
        }
        done = done + 1;
    }
    proof {
        assert(all.take(all.len() as int) =~= all);
    }
    EdgeFacts { edges, errors }
}

impl WorldView {
    /// All edges in ascending order.
    pub open spec fn edge_list(self) -> Seq<ReferenceEdge> {
        ascending::<ReferenceEdge>(self.reference_edges())
    }

    /// Whether the reference behind an edge leads to another crate.
    pub open spec fn crossing(self, edge: ReferenceEdge) -> bool {
        let reference = self.reference((edge.invocation, edge.reference));
        reference.from.stable_crate_id != reference.to.stable_crate_id
    }

    /// The nodes that the edges connect, each connection once.
    pub open spec fn all_edges(self) -> Set<(usize, (usize, ReferenceKind))> {
        image(self.edge_list(), node_edge())
    }

    /// The edges along which code is used.
    pub open spec fn runtime_edges(self) -> Set<(GraphState, GraphState)> {
        image(self.edge_list(), runtime_edge())
    }

    /// The edges along which interfaces refer to each other.
    pub open spec fn declared_interface_edges(self) -> Set<
        (GraphState, (GraphState, ReferenceKind)),
    > {
        image(self.edge_list(), interface_edge())
    }

    /// The target of an edge that leads to another crate, and that it has to be public for it.
    pub open spec fn crossing_requirement(self) -> spec_fn(ReferenceEdge) -> Option<
        (GraphState, Seq<char>),
    > {
        |edge: ReferenceEdge|
            if self.crossing(edge) {
                Some((edge.to, "referenced from another selected crate"@))
            } else {
                None
            }
    }

    /// The target of an edge by which production code uses another crate.
    pub open spec fn crossing_root(self) -> spec_fn(ReferenceEdge) -> Option<GraphState> {
        |edge: ReferenceEdge|
            if self.crossing(edge) && graph_class_of(
                self.invocations[edge.invocation as int].target,
            ) == Some(GraphClass::Production) {
                Some(edge.to)
            } else {
                None
            }
    }

    /// The states that production code starts from.
    pub open spec fn production_roots(self) -> Set<GraphState> {
        image(self.root_cells(), self.live_root(GraphClass::Production)).union(
            image(self.edge_list(), self.crossing_root()),
        )
    }

    /// The states that tests, benches and examples start from.
    pub open spec fn nonproduction_roots(self) -> Set<GraphState> {
        image(self.root_cells(), self.live_root(GraphClass::Nonproduction))
    }

    /// The states that have to be public by themselves, with the reasons.
    pub open spec fn initially_required(self) -> Map<GraphState, Set<Seq<char>>> {
        overlay(
            grouped(self.root_cells(), self.required_root()),
            grouped(self.edge_list(), self.crossing_requirement()),
        )
    }

    /// The state of a definition under the declaration whose visibility it shares.
    pub open spec fn visibility_state(self) -> spec_fn((usize, usize)) -> Option<
        (VisibilityKeyView, GraphState),
    > {
        |cell: (usize, usize)|
            match (
                visibility_key_of(self.places, self.input(cell), self.definition(cell)),
                local_state(self.local_nodes(), cell.0, self.definition(cell).compiler_id),
            ) {
                (Some(key), Some(state)) => Some((key, state)),
                _ => None,
            }
    }

    /// The states whose visibility is written in one place.
    pub open spec fn visibility_groups(self) -> Map<VisibilityKeyView, Set<GraphState>> {
        grouped(self.definition_cells(), self.visibility_state())
    }

    /// The edges between states whose visibility is written in one place.
    pub open spec fn twin_edges(self) -> Set<(GraphState, (GraphState, ReferenceKind))> {
        flat_image(
            ascending::<VisibilityKey>(self.visibility_groups().dom()),
            |key: VisibilityKeyView| twins(self.visibility_groups()[key]),
        )
    }

    /// The edges along which the need to be public spreads.
    pub open spec fn interface_edges(self) -> Set<(GraphState, (GraphState, ReferenceKind))> {
        self.declared_interface_edges().union(self.twin_edges())
    }

    /// Everything that keeps the graph from being closed.
    pub open spec fn errors(self) -> Set<Seq<char>> {
        image(self.root_cells(), self.root_error()).union(
            image(self.reference_cells(), self.reference_error()),
        )
    }

    /// The states that have to be public, with the reasons.
    pub open spec fn required_states(self) -> Map<GraphState, Set<Seq<char>>> {
        spread(self.initially_required(), self.interface_edges())
    }

    /// The nodes that have to be public, with the reasons.
    pub open spec fn required_nodes(self) -> Map<usize, Set<Seq<char>>> {
        by_node(self.required_states())
    }

    /// The nodes whose dead code is allowed.
    pub open spec fn suppressed(self) -> Set<usize> {
        image(self.root_cells(), self.suppressed_root())
    }

    /// The states that are roots, with the evidence for it.
    pub open spec fn roots(self) -> Map<GraphState, Set<RootEvidenceView>> {
        grouped(self.root_cells(), self.root_evidence())
    }

    /// Every edge was recorded by a reference of the world.
    pub proof fn lemma_edge_places(self, edge: ReferenceEdge)
        requires
            self.invocations.len() <= usize::MAX,
            forall|i: int|
                0 <= i < self.invocations.len() ==> (
                #[trigger] self.invocations[i]).invocation.references.len() <= usize::MAX,
            self.reference_edges().contains(edge),
        ensures
            edge.invocation < self.invocations.len(),
            edge.reference < self.invocations[edge.invocation as int].invocation.references.len(),
            self.edges_at()((edge.invocation, edge.reference)).contains(edge),
            self.reference_cells().contains((edge.invocation, edge.reference)),
    {
        let all = self.reference_cells();
        let k = choose|k: int| 0 <= k < all.len() && self.edges_at()(#[trigger] all[k]).contains(edge);
        lemma_cells(reference_counts(self.invocations));
        assert(all[k] == (edge.invocation, edge.reference));
    }
}

/// The nodes that an edge connects.
pub open spec fn node_edge() -> spec_fn(ReferenceEdge) -> Option<(usize, (usize, ReferenceKind))> {
    |edge: ReferenceEdge| Some((edge.from.node, (edge.to.node, edge.kind)))
}

/// The states that an edge connects, where code is used along it.
pub open spec fn runtime_edge() -> spec_fn(ReferenceEdge) -> Option<(GraphState, GraphState)> {
    |edge: ReferenceEdge|
        if edge.kind != ReferenceKind::VisibilityRequirement {
            Some((edge.from, edge.to))
        } else {
            None
        }
}

/// The states that an edge connects, where it is part of an interface.
pub open spec fn interface_edge() -> spec_fn(ReferenceEdge) -> Option<
    (GraphState, (GraphState, ReferenceKind)),
> {
    |edge: ReferenceEdge|
        if interface_kind(edge.kind) {
            Some((edge.from, (edge.to, edge.kind)))
        } else {
            None
        }
}

/// The edges between different states, from one set to another.
pub open spec fn twins_between(left: Set<GraphState>, right: Set<GraphState>) -> Set<
    (GraphState, (GraphState, ReferenceKind)),
> {
    Set::new(
        |edge: (GraphState, (GraphState, ReferenceKind))|
            {
                &&& left.contains(edge.0)
                &&& right.contains((edge.1).0)
                &&& edge.0 != (edge.1).0
                &&& (edge.1).1 == ReferenceKind::Interface
            },
    )
}

/// The edges between the different states of a set.
pub open spec fn twins(states: Set<GraphState>) -> Set<
    (GraphState, (GraphState, ReferenceKind)),
> {
    twins_between(states, states)
}

fn add_twins(
    edges: &mut SortedSet<(GraphState, (GraphState, ReferenceKind))>,
    group: &SortedSet<GraphState>,
)
    requires
        old(edges).wf(),
        group.wf(),
    ensures
        final(edges).wf(),
        final(edges).deep_view() == old(edges).deep_view().union(twins(group.deep_view())),
{
    let ghost base = edges.deep_view();
    let ghost all = group.seq();
    let ghost whole = group.deep_view();
    let mut i: usize = 0;
    proof {
        group.lemma_seq();
        assert(base.union(twins_between(all.take(0).to_set(), whole)) =~= base);
    }
    while i < group.len()
        invariant
            group.wf(),
            edges.wf(),
            all == group.seq(),
            whole == group.deep_view(),
            i <= all.len(),
            edges.deep_view() == base.union(twins_between(all.take(i as int).to_set(), whole)),
        decreases all.len() - i,
    {
        let from: GraphState = *group.get(i);
        let ghost outer = edges.deep_view();
        let ghost only = Set::<GraphState>::empty().insert(from);
        let mut j: usize = 0;
        proof {
            assert(outer.union(twins_between(only, all.take(0).to_set())) =~= outer);
        }
        while j < group.len()
            invariant
                group.wf(),
                edges.wf(),
                all == group.seq(),
                j <= all.len(),
                only == Set::<GraphState>::empty().insert(from),
                edges.deep_view() == outer.union(
                    twins_between(only, all.take(j as int).to_set()),
                ),
            decreases all.len() - j,
        {
            let to: GraphState = *group.get(j);
            proof {
                crate::collections::lemma_prefix_set(all, j as int);
            }
            let ghost had = edges.deep_view();
            if from != to {
                edges.insert((from, (to, ReferenceKind::Interface)));
            }
            proof {
                assert(edges.deep_view() =~= outer.union(
                    twins_between(only, all.take(j + 1).to_set()),
                ));
            }
            j = j + 1;
        }
        proof {
            assert(all.take(all.len() as int) =~= all);
            crate::collections::lemma_prefix_set(all, i as int);
            assert(edges.deep_view() =~= base.union(
                twins_between(all.take(i + 1).to_set(), whole),
            ));
        }
        i = i + 1;
    }
    proof {
        assert(all.take(all.len() as int) =~= all);
    }
}

/// Adds the edges between states whose visibility is written in one place.
pub fn add_visibility_equivalence_edges(
    world: &World<'_>,
    resolver: &Resolver,
    edges: &mut SortedSet<(GraphState, (GraphState, ReferenceKind))>,
)
    requires
        resolver.wf(),
        resolver.local.deep_view() == world.deep_view().local_nodes(),
        old(edges).wf(),
    ensures
        final(edges).wf(),
        final(edges).deep_view() == old(edges).deep_view().union(world.deep_view().twin_edges()),
{
    let ghost w = world.deep_view();
    let ghost base = edges.deep_view();
    let list = definition_list(world);
    let ghost all = w.definition_cells();
    let mut groups: Groups<VisibilityKey, GraphState> = Groups::new();
    let mut done: usize = 0;
    proof {
        lemma_grouped_ends(all, w.visibility_state());
    }
    while done < list.len()
        invariant
            w == world.deep_view(),
            all == w.definition_cells(),
            list@ == all,
            done <= list.len(),
            resolver.wf(),
            resolver.local.deep_view() == w.local_nodes(),
            forall|k: int|
                0 <= k < all.len() ==> (#[trigger] all[k]).0 < w.invocations.len() && all[k].1
                    < w.input(all[k]).invocation.definitions.len(),
            groups.wf(),
            groups.deep_view() == grouped(all.take(done as int), w.visibility_state()),
        decreases list.len() - done,
    {
        let cell = list[done];
        proof {
            assert(all[done as int] == cell);
            assert(w.invocations[cell.0 as int] == world.invocations[cell.0 as int].deep_view());
            lemma_grouped_step(all, w.visibility_state(), done as int);
        }
        let definition = definition_at(world, cell);
        match definition_visibility_key(world.places, &world.invocations[cell.0], definition) {
            None => {},
            Some(key) => match resolver.local_state(cell.0, definition.compiler_id) {
                None => {},
                Some(state) => {
                    groups.add(key, state);
                },
            },
        }
        done = done + 1;
    }
    let ghost f = |key: VisibilityKeyView| twins(w.visibility_groups()[key]);
    let ghost names = groups.key_seq();
    proof {
        assert(all.take(all.len() as int) =~= all);
        groups.lemma_places();
        assert(base.union(flat_image(names.take(0), f)) =~= base);
    }
    let mut index: usize = 0;
    while index < groups.len()
        invariant
            groups.wf(),
            edges.wf(),
            groups.deep_view() == w.visibility_groups(),
            names == groups.key_seq(),
            f == |key: VisibilityKeyView| twins(w.visibility_groups()[key]),
            index <= names.len(),
            edges.deep_view() == base.union(flat_image(names.take(index as int), f)),
        decreases names.len() - index,
    {
        proof {
            lemma_flat_image_step(names, f, index as int);
        }
        let ghost had = flat_image(names.take(index as int), f);
        add_twins(edges, groups.group(index));
        proof {
            assert(base.union(had).union(f(names[index as int])) =~= base.union(
                had.union(f(names[index as int])),
            ));
        }
        index = index + 1;
    }
    proof {
        assert(names.take(names.len() as int) =~= names);
    }
}

/// The places of all definitions, invocation by invocation.
pub fn definition_list(world: &World<'_>) -> (list: Vec<(usize, usize)>)
    ensures
        list@ == world.deep_view().definition_cells(),
        forall|k: int|
            0 <= k < list@.len() ==> (#[trigger] list@[k]).0 < world.deep_view().invocations.len()
                && list@[k].1 < world.deep_view().input(list@[k]).invocation.definitions.len(),
{
    let ghost w = world.deep_view();
    let mut counts: Vec<usize> = Vec::new();
    let mut index: usize = 0;
    while index < world.invocations.len()
        invariant
            w == world.deep_view(),
            index <= world.invocations.len(),
            counts@ =~= definition_counts(w.invocations).take(index as int),
        decreases world.invocations.len() - index,
    {
        proof {
            assert(w.invocations[index as int] == world.invocations[index as int].deep_view());
            assert(world.invocations[index as int].invocation.definitions.len()
                == w.invocations[index as int].invocation.definitions.len());
        }
        counts.push(world.invocations[index].invocation.definitions.len());
        index = index + 1;
    }
    proof {
        assert(counts@ =~= definition_counts(w.invocations));
        lemma_world_fits(world);
        w.lemma_definition_cells();
    }
    list_cells(&counts)
}

/// A reexport needs only the target itself to be public, not the modules around it.
pub open spec fn reexport_reason() -> Seq<char> {
    "a public reexport requires this local target to remain public"@
}

/// Whether the modules around a state have to be public too.
pub open spec fn follows_parents(reasons: Set<Seq<char>>) -> bool {
    exists|reason: Seq<char>| #[trigger] reasons.contains(reason) && reason != reexport_reason()
}

/// Where the need to be public starts: the required states, and whether the modules around them
/// are needed too.
pub open spec fn spread_starts(required: Map<GraphState, Set<Seq<char>>>) -> Set<
    (GraphState, bool),
> {
    image(
        ascending::<GraphState>(required.dom()),
        |state: GraphState| Some((state, follows_parents(required[state]))),
    )
}

/// A step of the need to be public, where the modules around are needed too.
pub open spec fn step_with_parents() -> spec_fn(
    (GraphState, (GraphState, ReferenceKind)),
) -> Option<((GraphState, bool), (GraphState, bool))> {
    |edge: (GraphState, (GraphState, ReferenceKind))| Some(((edge.0, true), ((edge.1).0, true)))
}

/// A step of the need to be public, where the modules around are not needed.
pub open spec fn step_without_parents() -> spec_fn(
    (GraphState, (GraphState, ReferenceKind)),
) -> Option<((GraphState, bool), (GraphState, bool))> {
    |edge: (GraphState, (GraphState, ReferenceKind))|
        if (edge.1).1 == ReferenceKind::VisibilityParent {
            None
        } else {
            Some(((edge.0, false), ((edge.1).0, false)))
        }
}

/// The steps along which the need to be public spreads.
pub open spec fn spread_steps(edges: Set<(GraphState, (GraphState, ReferenceKind))>) -> Set<
    ((GraphState, bool), (GraphState, bool)),
> {
    let list = ascending::<(GraphState, (GraphState, ReferenceKind))>(edges);
    image(list, step_with_parents()).union(image(list, step_without_parents()))
}

/// The state that a step from a visited place makes required.
pub open spec fn step_requirement(visited: Set<(GraphState, bool)>) -> spec_fn(
    ((GraphState, bool), (GraphState, bool)),
) -> Option<(GraphState, Seq<char>)> {
    |step: ((GraphState, bool), (GraphState, bool))|
        if visited.contains(step.0) {
            Some(((step.1).0, "required by a public interface or visibility edge"@))
        } else {
            None
        }
}

/// The required states together with all that their interfaces need.
pub open spec fn spread(
    required: Map<GraphState, Set<Seq<char>>>,
    edges: Set<(GraphState, (GraphState, ReferenceKind))>,
) -> Map<GraphState, Set<Seq<char>>> {
    let steps = spread_steps(edges);
    let visited = reach(spread_starts(required), steps);
    overlay(
        required,
        grouped(
            ascending::<((GraphState, bool), (GraphState, bool))>(steps),
            step_requirement(visited),
        ),
    )
}

/// The reasons of all states of a node together.
pub open spec fn by_node(states: Map<GraphState, Set<Seq<char>>>) -> Map<usize, Set<Seq<char>>> {
    within_nodes(states, states.dom())
}

/// The reasons of some states, node by node.
pub open spec fn within_nodes(
    states: Map<GraphState, Set<Seq<char>>>,
    some: Set<GraphState>,
) -> Map<usize, Set<Seq<char>>> {
    Map::new(
        |node: usize|
            exists|state: GraphState, reason: Seq<char>|
                some.contains(state) && #[trigger] states[state].contains(reason) && state.node
                    == node,
        |node: usize|
            Set::new(
                |reason: Seq<char>|
                    exists|state: GraphState|
                        some.contains(state) && #[trigger] states[state].contains(reason)
                            && state.node == node,
            ),
    )
}

/// Requiring nothing needs nothing, and what is required stays required.
pub proof fn law_spread_keeps_requirements(
    required: Map<GraphState, Set<Seq<char>>>,
    edges: Set<(GraphState, (GraphState, ReferenceKind))>,
)
    ensures
        forall|state: GraphState| #[trigger]
            required.contains_key(state) ==> spread(required, edges).contains_key(state)
                && required[state].subset_of(spread(required, edges)[state]),
{
}

fn add_reasons(groups: &mut Groups<usize, String>, node: usize, reasons: &SortedSet<String>)
    requires
        old(groups).wf(),
        reasons.wf(),
    ensures
        final(groups).wf(),
        final(groups).deep_view() == if reasons.seq().len() == 0 {
            old(groups).deep_view()
        } else {
            old(groups).deep_view().insert(
                node,
                group_at(old(groups).deep_view(), node).union(reasons.deep_view()),
            )
        },
{
    let ghost before = groups.deep_view();
    let ghost all = reasons.seq();
    let mut index: usize = 0;
    while index < reasons.len()
        invariant
            groups.wf(),
            reasons.wf(),
            all == reasons.seq(),
            index <= all.len(),
            groups.deep_view() == if index == 0 {
                before
            } else {
                before.insert(
                    node,
                    group_at(before, node).union(all.take(index as int).to_set()),
                )
            },
        decreases all.len() - index,
    {
        proof {
            crate::collections::lemma_prefix_set(all, index as int);
        }
        let ghost had = groups.deep_view();
        let reason = reasons.get(index).clone();
        groups.add(node, reason);
        proof {
            let long = all.take(index + 1).to_set();
            assert(all.take(0).to_set() =~= Set::<Seq<char>>::empty());
            assert(group_at(had, node).insert(all[index as int]) =~= group_at(before, node).union(
                long,
            ));
            assert(groups.deep_view() =~= before.insert(node, group_at(before, node).union(long)));
        }
        index = index + 1;
    }
    proof {
        assert(all.take(all.len() as int) =~= all);
    }
}

/// Gathers the reasons of all states of each node.
fn reasons_by_node(states: &Groups<GraphState, String>) -> (nodes: Groups<usize, String>)
    requires
        states.wf(),
    ensures
        nodes.wf(),
        nodes.deep_view() == by_node(states.deep_view()),
{
    let ghost map = states.deep_view();
    let ghost all = states.key_seq();
    let mut nodes: Groups<usize, String> = Groups::new();
    let mut index: usize = 0;
    proof {
        states.lemma_places();
        assert(within_nodes(map, all.take(0).to_set()) =~= Map::<usize, Set<Seq<char>>>::empty());
    }
    while index < states.len()
        invariant
            states.wf(),
            nodes.wf(),
            map == states.deep_view(),
            all == states.key_seq(),
            index <= all.len(),
            nodes.deep_view() == within_nodes(map, all.take(index as int).to_set()),
        decreases all.len() - index,
    {
        let state: GraphState = *states.key_at(index);
        let ghost had = nodes.deep_view();
        let ghost some = all.take(index as int).to_set();
        let reasons = states.group(index);
        proof {
            reasons.lemma_seq();
        }
        add_reasons(&mut nodes, state.node, reasons);
        proof {
            crate::collections::lemma_prefix_set(all, index as int);
            let more = some.insert(state);
            let expected = within_nodes(map, more);
            let found = nodes.deep_view();
            assert(map[state] == reasons.deep_view());
            if reasons.seq().len() == 0 {
                assert(reasons.seq() =~= Seq::<Seq<char>>::empty());
                assert(reasons.deep_view() =~= Set::<Seq<char>>::empty());
            } else {
                assert(reasons.deep_view().contains(reasons.seq()[0])) by {
                    assert(reasons.seq().contains(reasons.seq()[0]));
                }
                assert(map[state].contains(reasons.seq()[0]));
            }
            assert forall|node: usize| expected.dom().contains(node) <==> found.dom().contains(
                node,
            ) by {
                if expected.dom().contains(node) {
                    let (s, r) = choose|s: GraphState, r: Seq<char>|
                        more.contains(s) && #[trigger] map[s].contains(r) && s.node == node;
                    if s != state {
                        assert(some.contains(s));
                        assert(had.dom().contains(node));
                    }
                }
                if had.dom().contains(node) {
                    let (s, r) = choose|s: GraphState, r: Seq<char>|
                        some.contains(s) && #[trigger] map[s].contains(r) && s.node == node;
                    assert(more.contains(s));
                }
                if found.dom().contains(node) && !had.dom().contains(node) {
                    assert(more.contains(state));
                }
            }
            assert forall|node: usize| #[trigger] expected.dom().contains(node) implies found[node]
                == expected[node] by {
                assert forall|r: Seq<char>| found[node].contains(r) <==> expected[node].contains(
                    r,
                ) by {
                    if expected[node].contains(r) {
                        let s = choose|s: GraphState|
                            more.contains(s) && #[trigger] map[s].contains(r) && s.node == node;
                        if s != state {
                            assert(some.contains(s));
                            assert(had.dom().contains(node));
                            assert(had[node].contains(r));
                        }
                    }
                    if had.dom().contains(node) && had[node].contains(r) {
                        let s = choose|s: GraphState|
                            some.contains(s) && #[trigger] map[s].contains(r) && s.node == node;
                        assert(more.contains(s));
                    }
                    if node == state.node && map[state].contains(r) {
                        assert(more.contains(state));
                    }
                }
                assert(found[node] =~= expected[node]);
            }
            assert(found =~= expected);
        }
        index = index + 1;
    }
    proof {
        assert(all.take(all.len() as int) =~= all);
        states.lemma_places();
    }
    nodes
}

fn parents_follow(reasons: &SortedSet<String>) -> (follows: bool)
    requires
        reasons.wf(),
    ensures
        follows == follows_parents(reasons.deep_view()),
{
    let ghost all = reasons.seq();
    let mut index: usize = 0;
    while index < reasons.len()
        invariant
            reasons.wf(),
            all == reasons.seq(),
            index <= all.len(),
            forall|i: int| 0 <= i < index ==> #[trigger] all[i] == reexport_reason(),
        decreases all.len() - index,
    {
        if !same(
            reasons.get(index).as_str(),
            "a public reexport requires this local target to remain public",
        ) {
            proof {
                assert(all.contains(all[index as int]));
                assert(reasons.deep_view().contains(all[index as int]));
            }
            return true;
        }
        index = index + 1;
    }
    proof {
        if follows_parents(reasons.deep_view()) {
            let reason = choose|reason: Seq<char>| #[trigger]
                reasons.deep_view().contains(reason) && reason != reexport_reason();
            let i = choose|i: int| 0 <= i < all.len() && all[i] == reason;
        }
    }
    false
}

/// Spreads the need to be public along the interfaces of what has to be public.
pub fn propagate_required(
    required: &mut Groups<GraphState, String>,
    edges: &SortedSet<(GraphState, (GraphState, ReferenceKind))>,
)
    requires
        old(required).wf(),
        edges.wf(),
    ensures
        final(required).wf(),
        final(required).deep_view() == spread(old(required).deep_view(), edges.deep_view()),
{
    let ghost initial = required.deep_view();
    let ghost states = required.key_seq();
    let ghost start_of = |state: GraphState| Some((state, follows_parents(initial[state])));
    let mut starts: SortedSet<(GraphState, bool)> = SortedSet::new();
    let mut index: usize = 0;
    proof {
        required.lemma_places();
        lemma_image_ends(states, start_of);
    }
    while index < required.len()
        invariant
            required.wf(),
            starts.wf(),
            initial == required.deep_view(),
            states == required.key_seq(),
            start_of == |state: GraphState| Some((state, follows_parents(initial[state]))),
            index <= states.len(),
            starts.deep_view() == image(states.take(index as int), start_of),
        decreases states.len() - index,
    {
        proof {
            lemma_image_step(states, start_of, index as int);
        }
        let state: GraphState = *required.key_at(index);
        let follows = parents_follow(required.group(index));
        starts.insert((state, follows));
        index = index + 1;
    }
    let ghost list = edges.seq();
    let mut steps: SortedSet<((GraphState, bool), (GraphState, bool))> = SortedSet::new();
    let mut next: usize = 0;
    proof {
        edges.lemma_seq();
        lemma_image_ends(states, start_of);
        lemma_image_ends(list, step_with_parents());
        lemma_image_ends(list, step_without_parents());
        assert(steps.deep_view() =~= image(list.take(0), step_with_parents()).union(
            image(list.take(0), step_without_parents()),
        ));
    }
    while next < edges.len()
        invariant
            edges.wf(),
            steps.wf(),
            list == edges.seq(),
            next <= list.len(),
            steps.deep_view() == image(list.take(next as int), step_with_parents()).union(
                image(list.take(next as int), step_without_parents()),
            ),
        decreases list.len() - next,
    {
        proof {
            lemma_image_step(list, step_with_parents(), next as int);
            lemma_image_step(list, step_without_parents(), next as int);
        }
        let edge: (GraphState, (GraphState, ReferenceKind)) = *edges.get(next);
        let to: (GraphState, ReferenceKind) = edge.1;
        steps.insert(((edge.0, true), (to.0, true)));
        if to.1 != ReferenceKind::VisibilityParent {
            steps.insert(((edge.0, false), (to.0, false)));
        }
        next = next + 1;
        proof {
            assert(steps.deep_view() =~= image(list.take(next as int), step_with_parents()).union(
                image(list.take(next as int), step_without_parents()),
            ));
        }
    }
    let visited = reachable(&starts, &steps);
    let ghost walk = steps.seq();
    let ghost seen = visited.deep_view();
    let mut done: usize = 0;
    proof {
        steps.lemma_seq();
        lemma_grouped_ends(walk, step_requirement(seen));
        lemma_overlay_add(
            initial,
            initial,
            GraphState { invocation: 0, node: 0 },
            Seq::<char>::empty(),
        );
    }
    while done < steps.len()
        invariant
            required.wf(),
            steps.wf(),
            visited.wf(),
            walk == steps.seq(),
            seen == visited.deep_view(),
            done <= walk.len(),
            required.deep_view() == overlay(
                initial,
                grouped(walk.take(done as int), step_requirement(seen)),
            ),
        decreases walk.len() - done,
    {
        let step: ((GraphState, bool), (GraphState, bool)) = *steps.get(done);
        let to: (GraphState, bool) = step.1;
        proof {
            lemma_grouped_step(walk, step_requirement(seen), done as int);
            lemma_overlay_add(
                initial,
                grouped(walk.take(done as int), step_requirement(seen)),
                to.0,
                "required by a public interface or visibility edge"@,
            );
        }
        if visited.contains(&step.0) {
            required.add(to.0, "required by a public interface or visibility edge".to_owned());
        }
        done = done + 1;
    }
    proof {
        lemma_grouped_ends(walk, step_requirement(seen));
    }
}

/// The reference graph of a world.
pub struct Graph {
    pub nodes: Vec<Vec<(usize, usize)>>,
    pub runtime_edges: SortedSet<(GraphState, GraphState)>,
    pub all_edges: SortedSet<(usize, (usize, ReferenceKind))>,
    pub reference_edges: SortedSet<ReferenceEdge>,
    pub roots: Groups<GraphState, RootEvidence>,
    pub production_roots: SortedSet<GraphState>,
    pub nonproduction_roots: SortedSet<GraphState>,
    pub suppressed_candidates: SortedSet<usize>,
    pub required_reasons: Groups<usize, String>,
    pub errors: SortedSet<String>,
}

impl Graph {
    /// The graph is that of a world.
    pub open spec fn describes(&self, world: WorldView) -> bool {
        &&& world.definition_cells().len() <= usize::MAX
        &&& self.runtime_edges.wf()
        &&& self.all_edges.wf()
        &&& self.reference_edges.wf()
        &&& self.roots.wf()
        &&& self.production_roots.wf()
        &&& self.nonproduction_roots.wf()
        &&& self.suppressed_candidates.wf()
        &&& self.required_reasons.wf()
        &&& self.errors.wf()
        &&& self.nodes.deep_view() == world.nodes()
        &&& self.runtime_edges.deep_view() == world.runtime_edges()
        &&& self.all_edges.deep_view() == world.all_edges()
        &&& self.reference_edges.deep_view() == world.reference_edges()
        &&& self.roots.deep_view() == world.roots()
        &&& self.production_roots.deep_view() == world.production_roots()
        &&& self.nonproduction_roots.deep_view() == world.nonproduction_roots()
        &&& self.suppressed_candidates.deep_view() == world.suppressed()
        &&& self.required_reasons.deep_view() == world.required_nodes()
        &&& self.errors.deep_view() == world.errors()
    }
}

/// Builds the reference graph of a world, and finds out what has to be public in it.
pub fn build_graph(world: &World<'_>) -> (graph: Graph)
    ensures
        graph.describes(world.deep_view()),
{
    let ghost w = world.deep_view();
    let table = build_nodes(world);
    let resolver = Resolver::new(table.local);
    let root_facts = collect_roots(world, &resolver);
    let edge_facts = collect_edges(world, &resolver);
    let RootFacts { roots, production, nonproduction, suppressed, required, errors } = root_facts;
    let mut production = production;
    let mut required = required;
    let mut errors = errors;
    let reference_edges = edge_facts.edges;
    let ghost root_places = w.root_cells();
    let ghost list = w.edge_list();
    let ghost rooted = image(root_places, w.live_root(GraphClass::Production));
    let ghost demanded = grouped(root_places, w.required_root());
    let mut all_edges: SortedSet<(usize, (usize, ReferenceKind))> = SortedSet::new();
    let mut runtime_edges: SortedSet<(GraphState, GraphState)> = SortedSet::new();
    let mut interface_edges: SortedSet<(GraphState, (GraphState, ReferenceKind))> =
        SortedSet::new();
    let mut index: usize = 0;
    proof {
        lemma_world_fits(world);
        assert(root_places.take(root_places.len() as int) =~= root_places);
        reference_edges.lemma_seq();
        lemma_image_ends(list, node_edge());
        lemma_image_ends(list, runtime_edge());
        lemma_image_ends(list, interface_edge());
        lemma_image_ends(list, w.crossing_root());
        lemma_grouped_ends(list, w.crossing_requirement());
        lemma_overlay_add(
            demanded,
            demanded,
            GraphState { invocation: 0, node: 0 },
            Seq::<char>::empty(),
        );
        assert(production.deep_view() =~= rooted.union(image(list.take(0), w.crossing_root())));
    }
    while index < reference_edges.len()
        invariant
            w == world.deep_view(),
            w.invocations.len() <= usize::MAX,
            forall|i: int|
                0 <= i < w.invocations.len() ==> (
                #[trigger] w.invocations[i]).invocation.references.len() <= usize::MAX,
            reference_edges.wf(),
            reference_edges.deep_view() == w.reference_edges(),
            list == w.edge_list(),
            list == reference_edges.seq(),
            all_edges.wf(),
            runtime_edges.wf(),
            interface_edges.wf(),
            production.wf(),
            required.wf(),
            index <= list.len(),
            all_edges.deep_view() == image(list.take(index as int), node_edge()),
            runtime_edges.deep_view() == image(list.take(index as int), runtime_edge()),
            interface_edges.deep_view() == image(list.take(index as int), interface_edge()),
            production.deep_view() == rooted.union(
                image(list.take(index as int), w.crossing_root()),
            ),
            required.deep_view() == overlay(
                demanded,
                grouped(list.take(index as int), w.crossing_requirement()),
            ),
        decreases list.len() - index,
    {
        let edge: ReferenceEdge = *reference_edges.get(index);
        let ghost count = index as int;
        proof {
            assert(list.contains(edge));
            assert(w.reference_edges().contains(edge));
            w.lemma_edge_places(edge);
            assert(w.invocations[edge.invocation as int]
                == world.invocations[edge.invocation as int].deep_view());
            lemma_image_step(list, node_edge(), count);
            lemma_image_step(list, runtime_edge(), count);
            lemma_image_step(list, interface_edge(), count);
            lemma_image_step(list, w.crossing_root(), count);
            lemma_grouped_step(list, w.crossing_requirement(), count);
            lemma_overlay_add(
                demanded,
                grouped(list.take(count), w.crossing_requirement()),
                edge.to,
                "referenced from another selected crate"@,
            );
        }
        let input = &world.invocations[edge.invocation];
        let reference: &Reference = &input.invocation.references[edge.reference];
        proof {
            assert(reference.deep_view() == w.reference((edge.invocation, edge.reference)));
        }
        all_edges.insert((edge.from.node, (edge.to.node, edge.kind)));
        if edge.kind != ReferenceKind::VisibilityRequirement {
            runtime_edges.insert((edge.from, edge.to));
        }
        if is_interface(edge.kind) {
            interface_edges.insert((edge.from, (edge.to, edge.kind)));
        }
        if reference.from.stable_crate_id != reference.to.stable_crate_id {
            required.add(edge.to, "referenced from another selected crate".to_owned());
            if graph_class(input.target) == Some(GraphClass::Production) {
                production.insert(edge.to);
            }
        }
        proof {
            assert(production.deep_view() =~= rooted.union(
                image(list.take(count + 1), w.crossing_root()),
            ));
        }
        index = index + 1;
    }
    proof {
        assert(list.take(list.len() as int) =~= list);
    }
    add_visibility_equivalence_edges(world, &resolver, &mut interface_edges);
    propagate_required(&mut required, &interface_edges);
    let required_reasons = reasons_by_node(&required);
    let ghost root_errors = errors.deep_view();
    let more = edge_facts.errors;
    let ghost complaints = more.seq();
    let mut next: usize = 0;
    proof {
        more.lemma_seq();
        assert(root_errors.union(complaints.take(0).to_set()) =~= root_errors);
    }
    while next < more.len()
        invariant
            more.wf(),
            errors.wf(),
            complaints == more.seq(),
            next <= complaints.len(),
            errors.deep_view() == root_errors.union(complaints.take(next as int).to_set()),
        decreases complaints.len() - next,
    {
        proof {
            crate::collections::lemma_prefix_set(complaints, next as int);
        }
        let complaint = more.get(next).clone();
        errors.insert(complaint);
        proof {
            assert(errors.deep_view() =~= root_errors.union(
                complaints.take(next + 1).to_set(),
            ));
        }
        next = next + 1;
    }
    proof {
        assert(complaints.take(complaints.len() as int) =~= complaints);
    }
    Graph {
        nodes: table.nodes,
        runtime_edges,
        all_edges,
        reference_edges,
        roots,
        production_roots: production,
        nonproduction_roots: nonproduction,
        suppressed_candidates: suppressed,
        required_reasons,
        errors,
    }
}

} // verus!
