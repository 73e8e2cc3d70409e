//! What the closed world of all selected targets shows about public definitions.

use vstd::prelude::*;

use crate::collections::{
    ascending, cells, collected, count_where, first_where, flat_image, grouped, least,
    lemma_ascending_exists, lemma_bounded_finite, lemma_cells, lemma_collected_member,
    lemma_collected_step, lemma_count_bound, lemma_count_step, lemma_first_where,
    lemma_first_where_step, lemma_flat_image_step, lemma_grouped_ends, lemma_grouped_step,
    lemma_least, lemma_least_step, lemma_stable_sorted_member, list_cells, no_items, push_item,
    second, stable_sort, stable_sorted, take_second, Groups, SortedMap, SortedSet,
};
use crate::compiler::graph::{
    build_graph, definition_visibility_key, find_source, source_with, span_fits, visibility_key_of,
    Graph, GraphInvocation, GraphInvocationView, Locations, LocationsView, World, WorldView,
};
use crate::compiler::graph_keys::{GraphState, VisibilityKey, VisibilityKeyView};
use crate::compiler::declarations::{ImpactQuery, ImpactQueryView};
use crate::compiler::impact::{
    impact_report, impact_report_of, unavailable_impact, unavailable_impact_of,
};
use crate::compiler::labels::{
    definition_id, definition_kind, generated_label_of, generated_source_label, id_report,
    kind_name,
};
use crate::compiler::reach::{law_reach_is_closed, reach, reachable};
use crate::compiler::sidecar::Invocation;
use crate::model::{
    ClosedWorldFindingReport, ClosedWorldFindingReportView, ClosedWorldReport,
    ClosedWorldReportView, ClosedWorldSummaryReport, CompilerSourceSpanReport,
    CompilerSourceSpanReportView, CompilerTargetReport, CompilerTargetReportView, ImpactReport,
    ImpactReportView, RequiredVisibilityDefinitionReport, RequiredVisibilityDefinitionReportView,
    RequiredVisibilityReport, RequiredVisibilityReportView, SemanticStatus,
};
use crate::order::Ordered;
use crate::paths::{path_below, portable, portable_path, strip_base};
use crate::protocol::{
    Definition, DefinitionKind, DefinitionView, ExpansionOrigin, NominalVisibility, SourceFileView,
    SourceSpan, SourceSpanView,
};
use crate::text::{join, joined, list_contains, same};

verus! {

/// What the evidence covers.
pub open spec fn scope_text() -> Seq<char> {
    "selected-workspace compiled-target closed world"@
}

/// What the evidence does not cover.
pub open spec fn exclusions() -> Seq<Seq<char>> {
    seq!["doctests"@, "Cargo targets skipped by the active feature profile"@]
}

/// What the evidence does not cover.
pub fn evidence_exclusions() -> (list: Vec<String>)
    ensures
        list.deep_view() == exclusions(),
{
    let mut list: Vec<String> = no_items();
    push_item(&mut list, "doctests".to_owned());
    push_item(&mut list, "Cargo targets skipped by the active feature profile".to_owned());
    proof {
        assert(list.deep_view() =~= exclusions());
    }
    list
}

/// The place of a span in the report: generated files are labelled, others lie below the root.
pub open spec fn source_span_of(
    places: LocationsView,
    owner: Seq<char>,
    sources: Seq<SourceFileView>,
    span: SourceSpanView,
) -> Option<CompilerSourceSpanReportView> {
    match source_with(sources, span.file) {
        Some(source) if span_fits(source, span) => match source.local_path {
            Some(local) => Some(
                CompilerSourceSpanReportView {
                    path: if source.generated {
                        generated_label_of(owner, local, source.source_hash)
                    } else {
                        portable_path(
                            match path_below(local, places.root) {
                                Some(rest) => rest,
                                None => local,
                            },
                        )
                    },
                    source_hash: source.source_hash,
                    generated: source.generated,
                    start_byte: span.start as u64,
                    end_byte: span.end as u64,
                    line: span.line as u64,
                    column: span.column as u64,
                },
            ),
            None => None,
        },
        _ => None,
    }
}

/// The place of an optional span in the report.
pub open spec fn optional_span(
    places: LocationsView,
    input: GraphInvocationView,
    span: Option<SourceSpanView>,
) -> Option<CompilerSourceSpanReportView> {
    match span {
        Some(span) => source_span_of(places, input.owner, input.invocation.sources, span),
        None => None,
    }
}

/// Finds the place of an optional span in the report.
pub fn source_span(
    places: &Locations,
    input: &GraphInvocation<'_>,
    span: &Option<SourceSpan>,
) -> (report: Option<CompilerSourceSpanReport>)
    ensures
        report.deep_view() == optional_span(
            places.deep_view(),
            input.deep_view(),
            span.deep_view(),
        ),
{
    match span {
        None => None,
        Some(span) => match find_source(&input.invocation.sources, &span.file) {
            None => None,
            Some(source) => {
                if span.start > span.end || span.end > source.byte_len {
                    return None;
                }
                match &source.local_path {
                    None => None,
                    Some(local) => {
                        let path = if source.generated {
                            generated_source_label(
                                input.owner,
                                local.as_str(),
                                source.source_hash.as_str(),
                            )
                        } else {
                            match strip_base(local.as_str(), places.root.as_str()) {
                                Some(rest) => portable(rest.as_str()),
                                None => portable(local.as_str()),
                            }
                        };
                        Some(
                            CompilerSourceSpanReport {
                                path,
                                source_hash: source.source_hash.clone(),
                                generated: source.generated,
                                start_byte: span.start as u64,
                                end_byte: span.end as u64,
                                line: span.line as u64,
                                column: span.column as u64,
                            },
                        )
                    },
                }
            },
        },
    }
}

/// Whether a kind of target is a library.
pub open spec fn library_kind(kind: Seq<char>) -> bool {
    kind == "lib"@ || kind == "rlib"@ || kind == "dylib"@ || kind == "cdylib"@ || kind
        == "staticlib"@ || kind == "proc-macro"@
}

/// Whether one of the kinds of a target is a library.
pub open spec fn has_library_kind(kinds: Seq<Seq<char>>) -> bool {
    exists|i: int| 0 <= i < kinds.len() && library_kind(#[trigger] kinds[i])
}

/// Whether one of the kinds of a target is a library.
pub fn is_library(kinds: &Vec<String>) -> (result: bool)
    ensures
        result == has_library_kind(kinds.deep_view()),
{
    let mut index: usize = 0;
    while index < kinds.len()
        invariant
            index <= kinds.len(),
            forall|i: int| 0 <= i < index ==> !library_kind(#[trigger] kinds.deep_view()[i]),
        decreases kinds.len() - index,
    {
        let kind = kinds[index].as_str();
        proof {
            assert(kinds.deep_view()[index as int] == kind@);
        }
        if same(kind, "lib") || same(kind, "rlib") || same(kind, "dylib") || same(kind, "cdylib")
            || same(kind, "staticlib") || same(kind, "proc-macro") {
            return true;
        }
        index = index + 1;
    }
    false
}

/// Whether public definitions of a target are looked at: libraries for the target, procedural
/// macros, and the unit tests of libraries.
pub open spec fn candidate_target_of(target: CompilerTargetReportView) -> bool {
    has_library_kind(target.kinds) && if target.role == "production"@ {
        target.compilation_context == "target"@ || target.kinds.contains("proc-macro"@)
    } else {
        target.role == "unit_test"@ && target.compilation_context == "target"@
    }
}

/// Whether public definitions of a target are looked at.
pub fn candidate_target(target: &CompilerTargetReport) -> (result: bool)
    ensures
        result == candidate_target_of(target.deep_view()),
{
    if !is_library(&target.kinds) {
        return false;
    }
    if same(target.role.as_str(), "production") {
        same(target.compilation_context.as_str(), "target") || list_contains(
            &target.kinds,
            "proc-macro",
        )
    } else {
        same(target.role.as_str(), "unit_test") && same(
            target.compilation_context.as_str(),
            "target",
        )
    }
}

/// Whether a target is a library in production.
pub open spec fn library_target_of(target: CompilerTargetReportView) -> bool {
    target.role == "production"@ && has_library_kind(target.kinds)
}

/// Whether a target is a library in production.
pub fn library_target(target: &CompilerTargetReport) -> (result: bool)
    ensures
        result == library_target_of(target.deep_view()),
{
    same(target.role.as_str(), "production") && is_library(&target.kinds)
}

/// Whether a definition was written by hand in a file that is not generated.
pub open spec fn authored(sources: Seq<SourceFileView>, definition: DefinitionView) -> bool {
    definition.expansion_origin == ExpansionOrigin::Authored && match definition.span {
        Some(span) => match source_with(sources, span.file) {
            Some(source) => !source.generated,
            None => false,
        },
        None => false,
    }
}

/// Whether a definition was written by hand in a file that is not generated.
pub fn editable_authored_source(invocation: &Invocation, definition: &Definition) -> (result: bool)
    ensures
        result == authored(invocation.deep_view().sources, definition.deep_view()),
{
    if definition.expansion_origin != ExpansionOrigin::Authored {
        return false;
    }
    match &definition.span {
        Some(span) => match find_source(&invocation.sources, &span.file) {
            Some(source) => !source.generated,
            None => false,
        },
        None => false,
    }
}

/// Whether a kind of definition is never a candidate.
pub open spec fn excluded_kind(kind: DefinitionKind) -> bool {
    match kind {
        DefinitionKind::Crate
        | DefinitionKind::Variant
        | DefinitionKind::Constructor
        | DefinitionKind::Implementation
        | DefinitionKind::Import
        | DefinitionKind::Macro
        | DefinitionKind::ExternCrate
        | DefinitionKind::ForeignModule
        | DefinitionKind::OpaqueType => true,
        _ => false,
    }
}

/// Whether a public definition might be narrowed.
pub open spec fn eligible(input: GraphInvocationView, definition: DefinitionView) -> bool {
    &&& candidate_target_of(input.target)
    &&& definition.externally_reachable
    &&& definition.visibility_editable
    &&& authored(input.invocation.sources, definition)
    &&& definition.nominal_visibility == NominalVisibility::Public
    &&& !excluded_kind(definition.kind)
}

/// Whether a public definition might be narrowed.
pub fn eligible_candidate(input: &GraphInvocation<'_>, definition: &Definition) -> (result: bool)
    ensures
        result == eligible(input.deep_view(), definition.deep_view()),
{
    let excluded = match definition.kind {
        DefinitionKind::Crate
        | DefinitionKind::Variant
        | DefinitionKind::Constructor
        | DefinitionKind::Implementation
        | DefinitionKind::Import
        | DefinitionKind::Macro
        | DefinitionKind::ExternCrate
        | DefinitionKind::ForeignModule
        | DefinitionKind::OpaqueType => true,
        _ => false,
    };
    let public = match definition.nominal_visibility {
        NominalVisibility::Public => true,
        NominalVisibility::Restricted(_) => false,
    };
    candidate_target(input.target) && definition.externally_reachable
        && definition.visibility_editable && editable_authored_source(input.invocation, definition)
        && public && !excluded
}

/// Whether a definition is an associated item of a trait, whose visibility is the trait's.
pub open spec fn trait_member(
    definitions: Seq<DefinitionView>,
    definition: DefinitionView,
) -> bool {
    (definition.kind == DefinitionKind::AssociatedType || definition.kind
        == DefinitionKind::AssociatedFunction || definition.kind
        == DefinitionKind::AssociatedConstant) && match definition.parent {
        Some(parent) => exists|i: int|
            0 <= i < definitions.len() && (#[trigger] definitions[i]).compiler_id == parent
                && definitions[i].kind == DefinitionKind::Trait,
        None => false,
    }
}

/// Whether a definition is an associated item of a trait.
pub fn implicit_trait_member(definition: &Definition, invocation: &Invocation) -> (result: bool)
    ensures
        result == trait_member(invocation.deep_view().definitions, definition.deep_view()),
{
    match definition.kind {
        DefinitionKind::AssociatedType
        | DefinitionKind::AssociatedFunction
        | DefinitionKind::AssociatedConstant => {},
        _ => {
            return false;
        },
    }
    match definition.parent {
        None => false,
        Some(parent) => {
            let ghost all = invocation.deep_view().definitions;
            let mut index: usize = 0;
            while index < invocation.definitions.len()
                invariant
                    all == invocation.deep_view().definitions,
                    definition.parent == Some(parent),
                    definition.kind == DefinitionKind::AssociatedType || definition.kind
                        == DefinitionKind::AssociatedFunction || definition.kind
                        == DefinitionKind::AssociatedConstant,
                    index <= all.len(),
                    forall|i: int|
                        0 <= i < index ==> !((#[trigger] all[i]).compiler_id == parent
                            && all[i].kind == DefinitionKind::Trait),
                decreases all.len() - index,
            {
                proof {
                    assert(all[index as int] == invocation.definitions[index as int].deep_view());
                }
                if invocation.definitions[index].compiler_id == parent
                    && invocation.definitions[index].kind == DefinitionKind::Trait {
                    return true;
                }
                index = index + 1;
            }
            false
        },
    }
}

impl WorldView {
    /// Whether a definition is a candidate by itself.
    pub open spec fn is_candidate(self, cell: (usize, usize)) -> bool {
        eligible(self.input(cell), self.definition(cell)) && !trait_member(
            self.input(cell).invocation.definitions,
            self.definition(cell),
        )
    }

    /// The candidates among the definitions of a node.
    pub open spec fn candidate_members(self, node: int) -> Seq<(usize, usize)> {
        collected(self.nodes()[node], self.pick_candidate())
    }

    /// Picks a definition that is a candidate by itself.
    pub open spec fn pick_candidate(self) -> spec_fn((usize, usize)) -> Option<(usize, usize)> {
        |cell: (usize, usize)|
            if self.is_candidate(cell) {
                Some(cell)
            } else {
                None
            }
    }

    /// Production code represents a node before other code, earlier invocations before later ones.
    pub open spec fn represents_better(self) -> spec_fn((usize, usize), (usize, usize)) -> bool {
        |a: (usize, usize), b: (usize, usize)|
            <(bool, usize) as Ordered>::precedes(
                (self.input(a).target.role != "production"@, a.0),
                (self.input(b).target.role != "production"@, b.0),
            )
    }

    /// The candidate that represents a node.
    pub open spec fn candidate_of(self, node: int) -> Option<(usize, usize)> {
        least(self.candidate_members(node), self.represents_better())
    }

    /// The nodes with a candidate, and the candidates.
    pub open spec fn all_candidates(self) -> Map<usize, (usize, usize)> {
        Map::new(
            |node: usize| node < self.nodes().len() && self.candidate_of(node as int) is Some,
            |node: usize| self.candidate_of(node as int)->0,
        )
    }

    /// The places of the definitions of all nodes, node by node.
    pub open spec fn member_cells(self) -> Seq<(usize, usize)> {
        cells(Seq::new(self.nodes().len(), |n: int| self.nodes()[n].len() as usize))
    }

    /// The node of a definition under the declaration whose visibility it shares.
    pub open spec fn visibility_node(self) -> spec_fn((usize, usize)) -> Option<
        (VisibilityKeyView, usize),
    > {
        |place: (usize, usize)|
            {
                let cell = self.nodes()[place.0 as int][place.1 as int];
                match visibility_key_of(self.places, self.input(cell), self.definition(cell)) {
                    Some(key) => Some((key, place.0)),
                    None => None,
                }
            }
    }

    /// The nodes whose visibility is written in one place.
    pub open spec fn visibility_node_groups(self) -> Map<VisibilityKeyView, Set<usize>> {
        grouped(self.member_cells(), self.visibility_node())
    }

    /// Whether a node can be narrowed as far as it alone is concerned.
    pub open spec fn narrowable(self, node: usize) -> bool {
        self.all_candidates().contains_key(node) && !self.required_nodes().contains_key(node)
            && !self.suppressed().contains(node)
    }

    /// The nodes of a group, where all of them can be narrowed.
    pub open spec fn safe_group(self, group: Set<usize>) -> Set<usize> {
        if forall|node: usize| #[trigger] group.contains(node) ==> self.narrowable(node) {
            group
        } else {
            Set::empty()
        }
    }

    /// The nodes that can be narrowed together with all that share their visibility.
    pub open spec fn safe_nodes(self) -> Set<usize> {
        flat_image(
            ascending::<VisibilityKey>(self.visibility_node_groups().dom()),
            |key: VisibilityKeyView| self.safe_group(self.visibility_node_groups()[key]),
        )
    }

    /// The candidates that can be narrowed.
    pub open spec fn candidates(self) -> Map<usize, (usize, usize)> {
        self.all_candidates().restrict(self.safe_nodes())
    }

    /// The nodes that production code uses.
    pub open spec fn production_live(self) -> Set<usize> {
        nodes_of(reach(self.production_roots(), self.runtime_edges()))
    }

    /// The nodes that tests, benches and examples use.
    pub open spec fn nonproduction_live(self) -> Set<usize> {
        nodes_of(reach(self.nonproduction_roots(), self.runtime_edges()))
    }
}

/// A narrowable node is no required one.
pub proof fn law_candidates_are_not_required(world: WorldView, node: usize)
    requires
        world.candidates().contains_key(node),
    ensures
        !world.required_nodes().contains_key(node),
        !world.suppressed().contains(node),
{
    let names = ascending::<VisibilityKey>(world.visibility_node_groups().dom());
    let f = |key: VisibilityKeyView| world.safe_group(world.visibility_node_groups()[key]);
    assert(flat_image(names, f).contains(node));
    let i = choose|i: int| 0 <= i < names.len() && f(#[trigger] names[i]).contains(node);
    assert(world.visibility_node_groups()[names[i]].contains(node));
}

/// The nodes of some states.
pub open spec fn nodes_of(states: Set<GraphState>) -> Set<usize> {
    Set::new(|node: usize| exists|state: GraphState| #[trigger] states.contains(state)
        && state.node == node)
}

/// The nodes of some states.
pub fn reached_nodes(states: &SortedSet<GraphState>) -> (nodes: SortedSet<usize>)
    requires
        states.wf(),
    ensures
        nodes.wf(),
        nodes.deep_view() == nodes_of(states.deep_view()),
{
    let ghost all = states.seq();
    let mut nodes: SortedSet<usize> = SortedSet::new();
    let mut index: usize = 0;
    proof {
        assert(nodes_of(all.take(0).to_set()) =~= Set::<usize>::empty());
    }
    while index < states.len()
        invariant
            states.wf(),
            nodes.wf(),
            all == states.seq(),
            index <= all.len(),
            nodes.deep_view() == nodes_of(all.take(index as int).to_set()),
        decreases all.len() - index,
    {
        let ghost some = all.take(index as int).to_set();
        proof {
            crate::collections::lemma_prefix_set(all, index as int);
        }
        let state: GraphState = *states.get(index);
        nodes.insert(state.node);
        proof {
            let more = some.insert(state);
            assert(more.contains(state));
            assert forall|node: usize| nodes_of(more).contains(node) <==> nodes.deep_view().contains(
                node,
            ) by {
                if nodes_of(some).contains(node) {
                    let s = choose|s: GraphState| #[trigger] some.contains(s) && s.node == node;
                    assert(more.contains(s));
                }
                if nodes_of(more).contains(node) {
                    let s = choose|s: GraphState| #[trigger] more.contains(s) && s.node == node;
                    if s != state {
                        assert(some.contains(s));
                    }
                }
            }
            assert(nodes_of(more) =~= nodes.deep_view());
        }
        index = index + 1;
    }
    proof {
        assert(all.take(all.len() as int) =~= all);
    }
    nodes
}

/// The definitions of every node lie within the world.
pub open spec fn nodes_fit(world: WorldView) -> bool {
    forall|node: int, m: int|
        0 <= node < world.nodes().len() && 0 <= m < world.nodes()[node].len() ==> (
        #[trigger] world.nodes()[node][m]).0 < world.invocations.len() && world.nodes()[node][m].1
            < world.input(world.nodes()[node][m]).invocation.definitions.len()
}

/// The definitions of the nodes of an actual world lie within it.
pub proof fn lemma_nodes_fit(world: &World<'_>)
    ensures
        nodes_fit(world.deep_view()),
{
    crate::compiler::graph::lemma_world_fits(world);
    world.deep_view().lemma_nodes();
}

fn candidate_for(world: &World<'_>, members: &Vec<(usize, usize)>, Ghost(node): Ghost<int>) -> (best:
    Option<(usize, usize)>)
    requires
        0 <= node < world.deep_view().nodes().len(),
        members.deep_view() == world.deep_view().nodes()[node],
        nodes_fit(world.deep_view()),
    ensures
        best == world.deep_view().candidate_of(node),
{
    let ghost w = world.deep_view();
    let ghost all = w.nodes()[node];
    let ghost pick = w.pick_candidate();
    let ghost better = w.represents_better();
    let mut best: Option<(usize, usize)> = None;
    let mut index: usize = 0;
    proof {
        assert(collected(all.take(0), pick) =~= Seq::<(usize, usize)>::empty());
    }
    while index < members.len()
        invariant
            w == world.deep_view(),
            nodes_fit(w),
            0 <= node < w.nodes().len(),
            all == w.nodes()[node],
            members.deep_view() == all,
            pick == w.pick_candidate(),
            better == w.represents_better(),
            index <= all.len(),
            best == least(collected(all.take(index as int), pick), better),
            best matches Some(cell) ==> cell.0 < w.invocations.len(),
        decreases all.len() - index,
    {
        let cell: (usize, usize) = members[index];
        let ghost before = collected(all.take(index as int), pick);
        proof {
            assert(all[index as int] == cell);
            assert(w.nodes()[node][index as int] == cell);
            lemma_collected_step(all, pick, index as int);
            assert(w.invocations[cell.0 as int] == world.invocations[cell.0 as int].deep_view());
        }
        let input = &world.invocations[cell.0];
        let definition: &Definition = &input.invocation.definitions[cell.1];
        proof {
            assert(definition.deep_view() == w.definition(cell));
        }
        if eligible_candidate(input, definition) && !implicit_trait_member(
            definition,
            input.invocation,
        ) {
            proof {
                let longer = before.push(cell);
                lemma_least_step(longer, better, before.len() as int);
                assert(longer.take(before.len() as int) =~= before);
                assert(longer.take(before.len() as int + 1) =~= longer);
            }
            match best {
                None => {
                    best = Some(cell);
                },
                Some(held) => {
                    proof {
                        assert(w.invocations[held.0 as int]
                            == world.invocations[held.0 as int].deep_view());
                    }
                    let other = !same(input.target.role.as_str(), "production");
                    let held_other = !same(
                        world.invocations[held.0].target.role.as_str(),
                        "production",
                    );
                    if (!other && held_other) || (other == held_other && cell.0 < held.0) {
                        best = Some(cell);
                    }
                },
            }
        }
        index = index + 1;
    }
    proof {
        assert(all.take(all.len() as int) =~= all);
    }
    best
}

/// Finds the candidate that represents each node.
pub fn candidates(world: &World<'_>, nodes: &Vec<Vec<(usize, usize)>>) -> (found: SortedMap<
    usize,
    (usize, usize),
>)
    requires
        nodes.deep_view() == world.deep_view().nodes(),
    ensures
        found.wf(),
        found.deep_view() == world.deep_view().all_candidates(),
{
    let ghost w = world.deep_view();
    let mut found: SortedMap<usize, (usize, usize)> = SortedMap::new();
    let mut node: usize = 0;
    proof {
        lemma_nodes_fit(world);
    }
    while node < nodes.len()
        invariant
            w == world.deep_view(),
            nodes_fit(w),
            nodes.deep_view() == w.nodes(),
            node <= nodes.len(),
            found.wf(),
            found.deep_view() =~= w.all_candidates().restrict(
                Set::new(|n: usize| n < node),
            ),
        decreases nodes.len() - node,
    {
        proof {
            assert(w.nodes()[node as int] == nodes[node as int].deep_view());
        }
        if let Some(best) = candidate_for(world, &nodes[node], Ghost(node as int)) {
            found.insert(node, best);
        }
        node = node + 1;
    }
    proof {
        assert(found.deep_view() =~= w.all_candidates());
    }
    found
}

/// Finds the nodes that can be narrowed together with all that share their visibility.
pub fn safe_visibility_candidates(
    world: &World<'_>,
    graph: &Graph,
    candidates: &SortedMap<usize, (usize, usize)>,
) -> (safe: SortedSet<usize>)
    requires
        graph.describes(world.deep_view()),
        candidates.wf(),
        candidates.deep_view() == world.deep_view().all_candidates(),
    ensures
        safe.wf(),
        safe.deep_view() == world.deep_view().safe_nodes(),
{
    let ghost w = world.deep_view();
    let mut counts: Vec<usize> = Vec::new();
    let ghost lengths = Seq::new(w.nodes().len(), |n: int| w.nodes()[n].len() as usize);
    let mut node: usize = 0;
    while node < graph.nodes.len()
        invariant
            graph.nodes.deep_view() == w.nodes(),
            lengths == Seq::new(w.nodes().len(), |n: int| w.nodes()[n].len() as usize),
            node <= graph.nodes.len(),
            counts@ =~= lengths.take(node as int),
        decreases graph.nodes.len() - node,
    {
        proof {
            assert(w.nodes()[node as int] == graph.nodes[node as int].deep_view());
            assert(graph.nodes[node as int].len() == w.nodes()[node as int].len());
        }
        counts.push(graph.nodes[node].len());
        node = node + 1;
    }
    proof {
        assert(counts@ =~= lengths);
        lemma_cells(lengths);
        lemma_nodes_fit(world);
    }
    let list = list_cells(&counts);
    let ghost all = w.member_cells();
    let mut groups: Groups<VisibilityKey, usize> = Groups::new();
    let mut done: usize = 0;
    proof {
        lemma_grouped_ends(all, w.visibility_node());
    }
    while done < list.len()
        invariant
            w == world.deep_view(),
            nodes_fit(w),
            graph.nodes.deep_view() == w.nodes(),
            lengths == Seq::new(w.nodes().len(), |n: int| w.nodes()[n].len() as usize),
            all == cells(lengths),
            all == w.member_cells(),
            list@ == all,
            done <= list.len(),
            forall|k: int|
                0 <= k < all.len() ==> (#[trigger] all[k]).0 < lengths.len() && all[k].1
                    < lengths[all[k].0 as int],
            groups.wf(),
            groups.deep_view() == grouped(all.take(done as int), w.visibility_node()),
        decreases list.len() - done,
    {
        let place = list[done];
        proof {
            assert(all[done as int] == place);
            assert(w.nodes()[place.0 as int] == graph.nodes[place.0 as int].deep_view());
            assert(graph.nodes[place.0 as int].len() == w.nodes()[place.0 as int].len());
            lemma_grouped_step(all, w.visibility_node(), done as int);
        }
        let cell: (usize, usize) = graph.nodes[place.0][place.1];
        proof {
            assert(w.nodes()[place.0 as int][place.1 as int] == cell);
            assert(w.invocations[cell.0 as int] == world.invocations[cell.0 as int].deep_view());
        }
        let input = &world.invocations[cell.0];
        let definition: &Definition = &input.invocation.definitions[cell.1];
        proof {
            assert(definition.deep_view() == w.definition(cell));
        }
        if let Some(key) = definition_visibility_key(world.places, input, definition) {
            groups.add(key, place.0);
        }
        done = done + 1;
    }
    let ghost f = |key: VisibilityKeyView| w.safe_group(w.visibility_node_groups()[key]);
    let ghost names = groups.key_seq();
    let mut safe: SortedSet<usize> = SortedSet::new();
    let mut index: usize = 0;
    proof {
        assert(all.take(all.len() as int) =~= all);
        groups.lemma_places();
        assert(flat_image(names.take(0), f) =~= Set::<usize>::empty());
    }
    while index < groups.len()
        invariant
            graph.describes(w),
            candidates.wf(),
            candidates.deep_view() == w.all_candidates(),
            groups.wf(),
            safe.wf(),
            groups.deep_view() == w.visibility_node_groups(),
            names == groups.key_seq(),
            f == |key: VisibilityKeyView| w.safe_group(w.visibility_node_groups()[key]),
            index <= names.len(),
            safe.deep_view() == flat_image(names.take(index as int), f),
        decreases names.len() - index,
    {
        proof {
            lemma_flat_image_step(names, f, index as int);
        }
        let group = groups.group(index);
        let ghost members = group.deep_view();
        let mut group_is_safe = true;
        let mut next: usize = 0;
        while next < group.len()
            invariant
                graph.describes(w),
                candidates.wf(),
                candidates.deep_view() == w.all_candidates(),
                group.wf(),
                members == group.deep_view(),
                next <= group.seq().len(),
                group_is_safe == forall|i: int|
                    0 <= i < next ==> w.narrowable(#[trigger] group.seq()[i]),
            decreases group.seq().len() - next,
        {
            let node: usize = *group.get(next);
            let fine = candidates.contains_key(&node) && !graph.required_reasons.contains_key(&node)
                && !graph.suppressed_candidates.contains(&node);
            proof {
                assert(fine == w.narrowable(group.seq()[next as int]));
            }
            group_is_safe = group_is_safe && fine;
            next = next + 1;
        }
        proof {
            if group_is_safe {
                assert forall|node: usize| #[trigger] members.contains(node) implies w.narrowable(
                    node,
                ) by {
                    let i = choose|i: int| 0 <= i < group.seq().len() && group.seq()[i] == node;
                }
                assert(w.safe_group(members) == members);
            } else {
                let i = choose|i: int|
                    0 <= i < group.seq().len() && !w.narrowable(#[trigger] group.seq()[i]);
                assert(group.seq().contains(group.seq()[i]));
                assert(members.contains(group.seq()[i]));
                assert(w.safe_group(members) == Set::<usize>::empty());
            }
        }
        let ghost before = safe.deep_view();
        if group_is_safe {
            let mut added: usize = 0;
            proof {
                assert(before.union(group.seq().take(0).to_set()) =~= before);
            }
            while added < group.len()
                invariant
                    group.wf(),
                    safe.wf(),
                    added <= group.seq().len(),
                    safe.deep_view() == before.union(group.seq().take(added as int).to_set()),
                decreases group.seq().len() - added,
            {
                proof {
                    crate::collections::lemma_prefix_set(group.seq(), added as int);
                }
                safe.insert(*group.get(added));
                proof {
                    assert(safe.deep_view() =~= before.union(
                        group.seq().take(added + 1).to_set(),
                    ));
                }
                added = added + 1;
            }
            proof {
                assert(group.seq().take(group.seq().len() as int) =~= group.seq());
            }
        } else {
            proof {
                assert(before.union(Set::<usize>::empty()) =~= before);
            }
        }
        index = index + 1;
    }
    proof {
        assert(names.take(names.len() as int) =~= names);
    }
    safe
}

/// Keeps the candidates of some nodes.
fn retain_candidates(
    all: &SortedMap<usize, (usize, usize)>,
    kept: &SortedSet<usize>,
) -> (retained: SortedMap<usize, (usize, usize)>)
    requires
        all.wf(),
        kept.wf(),
    ensures
        retained.wf(),
        retained.deep_view() == all.deep_view().restrict(kept.deep_view()),
{
    let mut retained: SortedMap<usize, (usize, usize)> = SortedMap::new();
    let ghost names = all.key_seq();
    let ghost map = all.deep_view();
    let ghost keep = kept.deep_view();
    let mut index: usize = 0;
    proof {
        assert(map.restrict(names.take(0).to_set().intersect(keep)) =~= Map::<
            usize,
            (usize, usize),
        >::empty());
    }
    while index < all.len()
        invariant
            all.wf(),
            kept.wf(),
            retained.wf(),
            names == all.key_seq(),
            map == all.deep_view(),
            keep == kept.deep_view(),
            index <= names.len(),
            retained.deep_view() == map.restrict(names.take(index as int).to_set().intersect(keep)),
        decreases names.len() - index,
    {
        proof {
            all.lemma_places();
            crate::collections::lemma_prefix_set(names, index as int);
            assert(map.dom().contains(names[index as int]));
        }
        let node: usize = *all.key_at(index);
        let cell: (usize, usize) = *all.value_at(index);
        if kept.contains(&node) {
            retained.insert(node, cell);
        }
        proof {
            assert(retained.deep_view() =~= map.restrict(
                names.take(index + 1).to_set().intersect(keep),
            ));
        }
        index = index + 1;
    }
    proof {
        all.lemma_places();
        assert(names.take(names.len() as int) =~= names);
        assert(map.restrict(names.to_set().intersect(keep)) =~= map.restrict(keep));
    }
    retained
}

/// The definition that stands for a node: the first of production code, else the first.
pub open spec fn representative_of(world: WorldView, members: Seq<(usize, usize)>) -> Option<
    (usize, usize),
> {
    match first_where(
        members,
        |cell: (usize, usize)| world.input(cell).target.role == "production"@,
    ) {
        Some(cell) => Some(cell),
        None => if members.len() > 0 {
            Some(members[0])
        } else {
            None
        },
    }
}

/// Finds the definition that stands for a node.
pub fn representative(world: &World<'_>, members: &Vec<(usize, usize)>) -> (found: Option<
    (usize, usize),
>)
    requires
        forall|m: int|
            0 <= m < members@.len() ==> (#[trigger] members@[m]).0
                < world.deep_view().invocations.len(),
    ensures
        found == representative_of(world.deep_view(), members@),
{
    let ghost w = world.deep_view();
    let ghost wanted = |cell: (usize, usize)| w.input(cell).target.role == "production"@;
    proof {
        lemma_first_where(members@, wanted);
    }
    let mut index: usize = 0;
    while index < members.len()
        invariant
            w == world.deep_view(),
            wanted == |cell: (usize, usize)| w.input(cell).target.role == "production"@,
            forall|m: int|
                0 <= m < members@.len() ==> (#[trigger] members@[m]).0 < w.invocations.len(),
            index <= members@.len(),
            first_where(members@, wanted) == first_where(members@.skip(index as int), wanted),
        decreases members@.len() - index,
    {
        let cell: (usize, usize) = members[index];
        proof {
            lemma_first_where_step(members@, wanted, index as int);
            assert(w.invocations[cell.0 as int] == world.invocations[cell.0 as int].deep_view());
        }
        if same(world.invocations[cell.0].target.role.as_str(), "production") {
            return Some(cell);
        }
        index = index + 1;
    }
    if members.len() > 0 {
        Some(members[0])
    } else {
        None
    }
}

/// Whether a required definition is reported.
pub open spec fn reports_requirement(
    input: GraphInvocationView,
    definition: DefinitionView,
) -> bool {
    &&& library_target_of(input.target)
    &&& definition.externally_reachable
    &&& definition.visibility_editable
    &&& authored(input.invocation.sources, definition)
    &&& definition.nominal_visibility == NominalVisibility::Public
    &&& definition.kind != DefinitionKind::Crate
    &&& definition.kind != DefinitionKind::Variant
    &&& definition.kind != DefinitionKind::Constructor
    &&& definition.kind != DefinitionKind::Implementation
    &&& !trait_member(input.invocation.definitions, definition)
}

/// The report on a definition that has to stay public.
pub open spec fn requirement_of(
    places: LocationsView,
    input: GraphInvocationView,
    definition: DefinitionView,
    reasons: Set<Seq<char>>,
) -> RequiredVisibilityDefinitionReportView {
    RequiredVisibilityDefinitionReportView {
        package_id: input.target.package_id,
        crate_name: input.crate_name,
        representative_invocation: input.invocation.started.merge_key,
        representative_id: id_report(definition.compiler_id),
        definition_path: definition.definition_path,
        kind: kind_name(definition.kind),
        current_visibility: "public"@,
        required_visibility: "public"@,
        reasons: ascending::<String>(reasons),
        span: optional_span(places, input, definition.span),
    }
}

/// By what reports on definitions are sorted.
pub open spec fn requirement_key(report: RequiredVisibilityDefinitionReportView) -> (
    Seq<char>,
    (Seq<char>, (Seq<char>, Seq<char>)),
) {
    (
        report.package_id,
        (
            report.definition_path,
            (report.representative_id.stable_crate_id, report.representative_id.local_hash),
        ),
    )
}

impl WorldView {
    /// The report on a required node, where it has one.
    pub open spec fn requirement_entry(self) -> spec_fn(usize) -> Option<
        ((Seq<char>, (Seq<char>, (Seq<char>, Seq<char>))), RequiredVisibilityDefinitionReportView),
    > {
        |node: usize|
            if node >= self.nodes().len() {
                None
            } else {
                match representative_of(self, self.nodes()[node as int]) {
                    Some(cell) => if reports_requirement(self.input(cell), self.definition(cell)) {
                        let report = requirement_of(
                            self.places,
                            self.input(cell),
                            self.definition(cell),
                            self.required_nodes()[node],
                        );
                        Some((requirement_key(report), report))
                    } else {
                        None
                    },
                    None => None,
                }
            }
    }

    /// The reports on all required nodes, sorted.
    pub open spec fn requirements(self) -> Seq<RequiredVisibilityDefinitionReportView> {
        second(
            stable_sorted::<
                (String, (String, (String, String))),
                RequiredVisibilityDefinitionReport,
            >(
                collected(
                    ascending::<usize>(self.required_nodes().dom()),
                    self.requirement_entry(),
                ),
            ),
        )
    }

    /// What has to stay public.
    pub open spec fn required_visibility(self) -> RequiredVisibilityReportView {
        RequiredVisibilityReportView {
            scope: scope_text(),
            evidence_exclusions: exclusions(),
            definitions: self.requirements(),
        }
    }
}

fn copy_reasons(reasons: &SortedSet<String>) -> (list: Vec<String>)
    requires
        reasons.wf(),
    ensures
        list.deep_view() == ascending::<String>(reasons.deep_view()),
{
    let mut list: Vec<String> = no_items();
    let mut index: usize = 0;
    while index < reasons.len()
        invariant
            reasons.wf(),
            index <= reasons.seq().len(),
            list.deep_view() =~= reasons.seq().take(index as int),
        decreases reasons.seq().len() - index,
    {
        let reason = reasons.get(index).clone();
        push_item(&mut list, reason);
        index = index + 1;
    }
    proof {
        reasons.lemma_seq();
        assert(reasons.seq().take(reasons.seq().len() as int) =~= reasons.seq());
    }
    list
}

/// Reports what has to stay public.
pub fn required_visibility_report(world: &World<'_>, graph: &Graph) -> (report:
    RequiredVisibilityReport)
    requires
        graph.describes(world.deep_view()),
    ensures
        report.deep_view() == world.deep_view().required_visibility(),
{
    let ghost w = world.deep_view();
    let ghost names = graph.required_reasons.key_seq();
    let ghost f = w.requirement_entry();
    let mut entries: Vec<
        ((String, (String, (String, String))), RequiredVisibilityDefinitionReport),
    > = no_items();
    let mut index: usize = 0;
    proof {
        lemma_nodes_fit(world);
        graph.required_reasons.lemma_places();
        assert(names.take(0) =~= Seq::<usize>::empty());
    }
    while index < graph.required_reasons.len()
        invariant
            w == world.deep_view(),
            nodes_fit(w),
            graph.describes(w),
            names == graph.required_reasons.key_seq(),
            f == w.requirement_entry(),
            index <= names.len(),
            entries.deep_view() == collected(names.take(index as int), f),
        decreases names.len() - index,
    {
        let node: usize = *graph.required_reasons.key_at(index);
        proof {
            lemma_collected_step(names, f, index as int);
        }
        if node < graph.nodes.len() {
            let members = &graph.nodes[node];
            proof {
                assert(w.nodes()[node as int] == members.deep_view());
                assert(members@ =~= members.deep_view());
                assert forall|m: int| 0 <= m < members@.len() implies (#[trigger] members@[m]).0
                    < w.invocations.len() by {
                    assert(w.nodes()[node as int][m] == members@[m]);
                }
            }
            if let Some(cell) = representative(world, members) {
                proof {
                    lemma_first_where(
                        members@,
                        |cell: (usize, usize)| w.input(cell).target.role == "production"@,
                    );
                    assert(members@.contains(cell));
                    let m = choose|m: int| 0 <= m < members@.len() && members@[m] == cell;
                    assert(w.nodes()[node as int][m] == cell);
                    assert(w.invocations[cell.0 as int]
                        == world.invocations[cell.0 as int].deep_view());
                }
                let input = &world.invocations[cell.0];
                let definition: &Definition = &input.invocation.definitions[cell.1];
                proof {
                    assert(definition.deep_view() == w.definition(cell));
                }
                let public = match definition.nominal_visibility {
                    NominalVisibility::Public => true,
                    NominalVisibility::Restricted(_) => false,
                };
                let excluded = match definition.kind {
                    DefinitionKind::Crate
                    | DefinitionKind::Variant
                    | DefinitionKind::Constructor
                    | DefinitionKind::Implementation => true,
                    _ => false,
                };
                if library_target(input.target) && definition.externally_reachable
                    && definition.visibility_editable && editable_authored_source(
                    input.invocation,
                    definition,
                ) && public && !excluded && !implicit_trait_member(definition, input.invocation) {
                    let report = RequiredVisibilityDefinitionReport {
                        package_id: input.target.package_id.clone(),
                        crate_name: input.crate_name.to_owned(),
                        representative_invocation: input.invocation.started.merge_key.0.clone(),
                        representative_id: definition_id(definition.compiler_id),
                        definition_path: definition.definition_path.clone(),
                        kind: definition_kind(definition.kind).to_owned(),
                        current_visibility: "public".to_owned(),
                        required_visibility: "public".to_owned(),
                        reasons: copy_reasons(graph.required_reasons.group(index)),
                        span: source_span(world.places, input, &definition.span),
                    };
                    let key = (
                        report.package_id.clone(),
                        (
                            report.definition_path.clone(),
                            (
                                report.representative_id.stable_crate_id.clone(),
                                report.representative_id.local_hash.clone(),
                            ),
                        ),
                    );
                    push_item(&mut entries, (key, report));
                }
            }
        }
        index = index + 1;
    }
    proof {
        assert(names.take(names.len() as int) =~= names);
    }
    RequiredVisibilityReport {
        scope: "selected-workspace compiled-target closed world".to_owned(),
        evidence_exclusions: evidence_exclusions(),
        definitions: take_second(stable_sort(entries)),
    }
}

/// The report on a public definition that need not be public.
pub open spec fn finding_of(
    places: LocationsView,
    input: GraphInvocationView,
    definition: DefinitionView,
    production_live: bool,
    nonproduction_live: bool,
    test_compiled_only: bool,
) -> ClosedWorldFindingReportView {
    ClosedWorldFindingReportView {
        kind: if production_live || nonproduction_live {
            "unnecessary_public"@
        } else {
            "dead_public"@
        },
        reason: if production_live || nonproduction_live {
            "reachable, but no selected cross-crate use requires unrestricted public visibility"@
        } else {
            "unreachable from every compiled production and nonproduction root"@
        },
        package_id: input.target.package_id,
        crate_name: input.crate_name,
        representative_invocation: input.invocation.started.merge_key,
        representative_id: id_report(definition.compiler_id),
        definition_path: definition.definition_path,
        definition_kind: kind_name(definition.kind),
        production_live,
        nonproduction_live,
        test_compiled_only,
        span: optional_span(places, input, definition.span),
        attribution_callsite: optional_span(places, input, definition.attribution_callsite),
    }
}

/// Reports a public definition that need not be public.
pub fn finding_report(
    places: &Locations,
    input: &GraphInvocation<'_>,
    definition: &Definition,
    production_live: bool,
    nonproduction_live: bool,
    test_compiled_only: bool,
) -> (report: ClosedWorldFindingReport)
    ensures
        report.deep_view() == finding_of(
            places.deep_view(),
            input.deep_view(),
            definition.deep_view(),
            production_live,
            nonproduction_live,
            test_compiled_only,
        ),
{
    let live = production_live || nonproduction_live;
    let kind = if live {
        "unnecessary_public"
    } else {
        "dead_public"
    };
    let reason = if live {
        "reachable, but no selected cross-crate use requires unrestricted public visibility"
    } else {
        "unreachable from every compiled production and nonproduction root"
    };
    ClosedWorldFindingReport {
        kind: kind.to_owned(),
        reason: reason.to_owned(),
        package_id: input.target.package_id.clone(),
        crate_name: input.crate_name.to_owned(),
        representative_invocation: input.invocation.started.merge_key.0.clone(),
        representative_id: definition_id(definition.compiler_id),
        definition_path: definition.definition_path.clone(),
        definition_kind: definition_kind(definition.kind).to_owned(),
        production_live,
        nonproduction_live,
        test_compiled_only,
        span: source_span(places, input, &definition.span),
        attribution_callsite: source_span(places, input, &definition.attribution_callsite),
    }
}

/// By what findings are sorted.
pub open spec fn finding_key(finding: ClosedWorldFindingReportView) -> (
    Seq<char>,
    (Seq<char>, (Seq<char>, (Seq<char>, Seq<char>))),
) {
    (
        finding.kind,
        (
            finding.package_id,
            (
                finding.definition_path,
                (finding.representative_id.stable_crate_id, finding.representative_id.local_hash),
            ),
        ),
    )
}

impl WorldView {
    /// Whether production code is among the definitions of a node.
    pub open spec fn compiled_for_production(self, node: int) -> bool {
        exists|m: int|
            0 <= m < self.nodes()[node].len() && self.input(
                #[trigger] self.nodes()[node][m],
            ).target.role == "production"@
    }

    /// The finding on a candidate, where it has one.
    pub open spec fn finding_entry(self) -> spec_fn(usize) -> Option<
        (
            (Seq<char>, (Seq<char>, (Seq<char>, (Seq<char>, Seq<char>)))),
            ClosedWorldFindingReportView,
        ),
    > {
        |node: usize|
            if self.required_nodes().contains_key(node) {
                None
            } else {
                let cell = self.candidates()[node];
                let finding = finding_of(
                    self.places,
                    self.input(cell),
                    self.definition(cell),
                    self.production_live().contains(node),
                    self.nonproduction_live().contains(node),
                    !self.compiled_for_production(node as int),
                );
                Some((finding_key(finding), finding))
            }
    }

    /// All findings, sorted.
    pub open spec fn findings(self) -> Seq<ClosedWorldFindingReportView> {
        second(
            stable_sorted::<
                (String, (String, (String, (String, String)))),
                ClosedWorldFindingReport,
            >(
                collected(
                    ascending::<usize>(self.candidates().dom()),
                    self.finding_entry(),
                ),
            ),
        )
    }

    /// How many findings are about dead definitions.
    pub open spec fn dead_findings(self) -> nat {
        count_where(
            self.findings(),
            |finding: ClosedWorldFindingReportView| finding.kind == "dead_public"@,
        )
    }

    /// What the closed world shows.
    pub open spec fn report(self) -> ClosedWorldReportView {
        ClosedWorldReportView {
            scope: scope_text(),
            evidence_exclusions: exclusions(),
            summary: ClosedWorldSummaryReport {
                definition_nodes: count_where(
                    self.nodes(),
                    |members: Seq<(usize, usize)>| members.len() > 0,
                ) as u64,
                reference_edges: self.all_edges().len() as u64,
                production_roots: self.production_roots().len() as u64,
                nonproduction_roots: self.nonproduction_roots().len() as u64,
                production_live: self.production_live().len() as u64,
                nonproduction_live: self.nonproduction_live().len() as u64,
                public_candidates: self.candidates().dom().len() as u64,
                dead_public: self.dead_findings() as u64,
                unnecessary_public: (self.findings().len() - self.dead_findings()) as u64,
            },
            findings: self.findings(),
        }
    }
}

/// Every finding is on a declaration that nothing requires to be public. It says that the
/// declaration is dead just where no walk leads to it from any root.
pub proof fn law_findings_are_on_what_nothing_requires(world: WorldView, index: int) -> (node: usize)
    requires
        0 <= index < world.findings().len(),
    ensures
        world.candidates().contains_key(node),
        !world.required_nodes().contains_key(node),
        world.findings()[index] == finding_of(
            world.places,
            world.input(world.candidates()[node]),
            world.definition(world.candidates()[node]),
            world.production_live().contains(node),
            world.nonproduction_live().contains(node),
            !world.compiled_for_production(node as int),
        ),
        world.findings()[index].kind == "dead_public"@ <==> !world.production_live().contains(node)
            && !world.nonproduction_live().contains(node),
{
    let names = ascending::<usize>(world.candidates().dom());
    let f = world.finding_entry();
    let entries = collected(names, f);
    lemma_stable_sorted_member::<
        (String, (String, (String, (String, String)))),
        ClosedWorldFindingReport,
    >(entries, index);
    let entry = stable_sorted::<
        (String, (String, (String, (String, String)))),
        ClosedWorldFindingReport,
    >(entries)[index];
    let at = lemma_collected_member(names, f, entry);
    lemma_bounded_finite(world.candidates().dom(), world.nodes().len() as int);
    lemma_ascending_exists::<usize>(world.candidates().dom());
    assert(names.to_set().contains(names[at]));
    reveal_strlit("dead_public");
    reveal_strlit("unnecessary_public");
    assert("dead_public"@.len() != "unnecessary_public"@.len());
    names[at]
}

/// What live code uses is live.
pub proof fn law_what_live_code_uses_is_live(world: WorldView, user: GraphState, used: GraphState)
    requires
        world.runtime_edges().contains((user, used)),
    ensures
        reach(world.production_roots(), world.runtime_edges()).contains(user)
            ==> world.production_live().contains(used.node),
        reach(world.nonproduction_roots(), world.runtime_edges()).contains(user)
            ==> world.nonproduction_live().contains(used.node),
        world.production_roots().contains(user) ==> world.production_live().contains(user.node),
        world.nonproduction_roots().contains(user) ==> world.nonproduction_live().contains(
            user.node,
        ),
{
    law_reach_is_closed(world.production_roots(), world.runtime_edges());
    law_reach_is_closed(world.nonproduction_roots(), world.runtime_edges());
}

fn production_compiled(
    world: &World<'_>,
    members: &Vec<(usize, usize)>,
    Ghost(node): Ghost<int>,
) -> (found: bool)
    requires
        0 <= node < world.deep_view().nodes().len(),
        members.deep_view() == world.deep_view().nodes()[node],
        nodes_fit(world.deep_view()),
    ensures
        found == world.deep_view().compiled_for_production(node),
{
    let ghost w = world.deep_view();
    let mut index: usize = 0;
    while index < members.len()
        invariant
            w == world.deep_view(),
            nodes_fit(w),
            0 <= node < w.nodes().len(),
            members.deep_view() == w.nodes()[node],
            index <= members.len(),
            forall|m: int|
                0 <= m < index ==> w.input(#[trigger] w.nodes()[node][m]).target.role
                    != "production"@,
        decreases members.len() - index,
    {
        let cell: (usize, usize) = members[index];
        proof {
            assert(w.nodes()[node][index as int] == cell);
            assert(w.invocations[cell.0 as int] == world.invocations[cell.0 as int].deep_view());
        }
        if same(world.invocations[cell.0].target.role.as_str(), "production") {
            return true;
        }
        index = index + 1;
    }
    false
}

/// The candidate of a node is one of its definitions.
proof fn lemma_candidate_place(world: WorldView, node: usize)
    requires
        world.all_candidates().contains_key(node),
        nodes_fit(world),
    ensures
        world.all_candidates()[node].0 < world.invocations.len(),
        world.all_candidates()[node].1 < world.input(
            world.all_candidates()[node],
        ).invocation.definitions.len(),
{
    let members = world.nodes()[node as int];
    let chosen = world.candidate_members(node as int);
    lemma_least(chosen, world.represents_better());
    let best = world.candidate_of(node as int)->0;
    lemma_picked(members, world.pick_candidate(), best);
    let m = choose|m: int| 0 <= m < members.len() && members[m] == best;
    assert(world.nodes()[node as int][m] == best);
}

/// What a picking function collects are elements of the sequence.
pub proof fn lemma_picked(
    s: Seq<(usize, usize)>,
    f: spec_fn((usize, usize)) -> Option<(usize, usize)>,
    item: (usize, usize),
)
    requires
        collected(s, f).contains(item),
        forall|x: (usize, usize)| #[trigger] f(x) is Some ==> f(x) == Some(x),
    ensures
        s.contains(item),
    decreases s.len(),
{
    if s.len() > 0 {
        let i = choose|i: int| 0 <= i < collected(s, f).len() && collected(s, f)[i] == item;
        let head = s.drop_last();
        if f(s.last()) is Some && i == collected(s, f).len() - 1 {
            assert(s[s.len() - 1] == item);
        } else {
            assert(collected(head, f)[i] == item);
            lemma_picked(head, f, item);
            let k = choose|k: int| 0 <= k < head.len() && head[k] == item;
            assert(s[k] == item);
        }
    }
}

/// Reports what the closed world shows.
fn closed_world_report(
    world: &World<'_>,
    graph: &Graph,
    candidates: &SortedMap<usize, (usize, usize)>,
    production: &SortedSet<usize>,
    nonproduction: &SortedSet<usize>,
) -> (report: ClosedWorldReport)
    requires
        graph.describes(world.deep_view()),
        candidates.wf(),
        production.wf(),
        nonproduction.wf(),
        candidates.deep_view() == world.deep_view().candidates(),
        production.deep_view() == world.deep_view().production_live(),
        nonproduction.deep_view() == world.deep_view().nonproduction_live(),
    ensures
        report.deep_view() == world.deep_view().report(),
{
    let ghost w = world.deep_view();
    let ghost names = candidates.key_seq();
    let ghost f = w.finding_entry();
    let mut entries: Vec<
        ((String, (String, (String, (String, String)))), ClosedWorldFindingReport),
    > = no_items();
    let mut index: usize = 0;
    proof {
        lemma_nodes_fit(world);
        candidates.lemma_places();
        assert(names.take(0) =~= Seq::<usize>::empty());
    }
    while index < candidates.len()
        invariant
            w == world.deep_view(),
            nodes_fit(w),
            graph.describes(w),
            candidates.wf(),
            production.wf(),
            nonproduction.wf(),
            candidates.deep_view() == w.candidates(),
            production.deep_view() == w.production_live(),
            nonproduction.deep_view() == w.nonproduction_live(),
            names == candidates.key_seq(),
            f == w.finding_entry(),
            index <= names.len(),
            entries.deep_view() == collected(names.take(index as int), f),
        decreases names.len() - index,
    {
        let node: usize = *candidates.key_at(index);
        let cell: (usize, usize) = *candidates.value_at(index);
        proof {
            candidates.lemma_places();
            lemma_collected_step(names, f, index as int);
            assert(candidates.deep_view().dom().contains(names[index as int]));
            assert(w.candidates().contains_key(node));
            lemma_candidate_place(w, node);
            assert(w.invocations[cell.0 as int] == world.invocations[cell.0 as int].deep_view());
            assert(w.nodes()[node as int] == graph.nodes[node as int].deep_view());
        }
        if !graph.required_reasons.contains_key(&node) {
            let input = &world.invocations[cell.0];
            let definition: &Definition = &input.invocation.definitions[cell.1];
            proof {
                assert(definition.deep_view() == w.definition(cell));
            }
            let production_live = production.contains(&node);
            let nonproduction_live = nonproduction.contains(&node);
            let test_compiled_only = !production_compiled(
                world,
                &graph.nodes[node],
                Ghost(node as int),
            );
            let finding = finding_report(
                world.places,
                input,
                definition,
                production_live,
                nonproduction_live,
                test_compiled_only,
            );
            let key = (
                finding.kind.clone(),
                (
                    finding.package_id.clone(),
                    (
                        finding.definition_path.clone(),
                        (
                            finding.representative_id.stable_crate_id.clone(),
                            finding.representative_id.local_hash.clone(),
                        ),
                    ),
                ),
            );
            push_item(&mut entries, (key, finding));
        }
        index = index + 1;
    }
    proof {
        assert(names.take(names.len() as int) =~= names);
    }
    let findings = take_second(stable_sort(entries));
    let ghost all = findings.deep_view();
    let ghost dead = |finding: ClosedWorldFindingReportView| finding.kind == "dead_public"@;
    let mut dead_public: usize = 0;
    let mut next: usize = 0;
    proof {
        lemma_count_bound(all, dead);
    }
    while next < findings.len()
        invariant
            all == findings.deep_view(),
            dead == |finding: ClosedWorldFindingReportView| finding.kind == "dead_public"@,
            next <= all.len(),
            dead_public <= next,
            dead_public == count_where(all.take(next as int), dead),
        decreases all.len() - next,
    {
        proof {
            lemma_count_step(all, dead, next as int);
            assert(all[next as int] == findings[next as int].deep_view());
        }
        if same(findings[next].kind.as_str(), "dead_public") {
            dead_public = dead_public + 1;
        }
        next = next + 1;
    }
    let ghost nodes = w.nodes();
    let ghost filled = |members: Seq<(usize, usize)>| members.len() > 0;
    let mut definition_nodes: usize = 0;
    let mut node: usize = 0;
    proof {
        lemma_count_bound(all, dead);
        lemma_count_bound(nodes, filled);
    }
    while node < graph.nodes.len()
        invariant
            graph.nodes.deep_view() == nodes,
            filled == |members: Seq<(usize, usize)>| members.len() > 0,
            node <= nodes.len(),
            definition_nodes <= node,
            definition_nodes == count_where(nodes.take(node as int), filled),
        decreases nodes.len() - node,
    {
        proof {
            lemma_count_step(nodes, filled, node as int);
            assert(nodes[node as int] == graph.nodes[node as int].deep_view());
        }
        if graph.nodes[node].len() > 0 {
            definition_nodes = definition_nodes + 1;
        }
        node = node + 1;
    }
    proof {
        lemma_count_bound(nodes, filled);
        graph.all_edges.lemma_seq();
        graph.production_roots.lemma_seq();
        graph.nonproduction_roots.lemma_seq();
        production.lemma_seq();
        nonproduction.lemma_seq();
        candidates.lemma_places();
    }
    ClosedWorldReport {
        scope: "selected-workspace compiled-target closed world".to_owned(),
        evidence_exclusions: evidence_exclusions(),
        summary: ClosedWorldSummaryReport {
            definition_nodes: definition_nodes as u64,
            reference_edges: graph.all_edges.len() as u64,
            production_roots: graph.production_roots.len() as u64,
            nonproduction_roots: graph.nonproduction_roots.len() as u64,
            production_live: production.len() as u64,
            nonproduction_live: nonproduction.len() as u64,
            public_candidates: candidates.len() as u64,
            dead_public: dead_public as u64,
            unnecessary_public: (findings.len() - dead_public) as u64,
        },
        findings,
    }
}

/// All conclusions from the reference graph, as far as the evidence allows them.
#[derive(Debug, PartialEq, Eq)]
pub struct Aggregation {
    pub status: SemanticStatus,
    pub reason: Option<String>,
    pub required_visibility: Option<RequiredVisibilityReport>,
    pub closed_world: Option<ClosedWorldReport>,
    pub impact: Option<ImpactReport>,
}

/// The model of [`Aggregation`].
#[verifier::ext_equal]
pub struct AggregationView {
    pub status: SemanticStatus,
    pub reason: Option<Seq<char>>,
    pub required_visibility: Option<RequiredVisibilityReportView>,
    pub closed_world: Option<ClosedWorldReportView>,
    pub impact: Option<ImpactReportView>,
}

impl DeepView for Aggregation {
    type V = AggregationView;

    open spec fn deep_view(&self) -> AggregationView {
        AggregationView {
            status: self.status,
            reason: self.reason.deep_view(),
            required_visibility: self.required_visibility.deep_view(),
            closed_world: self.closed_world.deep_view(),
            impact: self.impact.deep_view(),
        }
    }
}

/// No conclusions, and why.
pub open spec fn incomplete_of(status: SemanticStatus, reason: Seq<char>) -> AggregationView {
    AggregationView {
        status,
        reason: Some(reason),
        required_visibility: None,
        closed_world: None,
        impact: None,
    }
}

/// No conclusions, and why; a query is answered with the same reason.
pub open spec fn incomplete_answer(
    status: SemanticStatus,
    reason: Seq<char>,
    query: Option<ImpactQueryView>,
) -> AggregationView {
    AggregationView {
        impact: match query {
            Some(query) => Some(unavailable_impact_of(query, reason, Seq::empty())),
            None => None,
        },
        ..incomplete_of(status, reason)
    }
}

/// Draws no conclusions.
pub fn incomplete(status: SemanticStatus, reason: &str) -> (aggregation: Aggregation)
    ensures
        aggregation.deep_view() == incomplete_of(status, reason@),
{
    Aggregation {
        status,
        reason: Some(reason.to_owned()),
        required_visibility: None,
        closed_world: None,
        impact: None,
    }
}

/// Draws no conclusions, and answers a query with the reason for it.
pub fn incomplete_with_query(
    status: SemanticStatus,
    reason: &str,
    query: Option<&ImpactQuery>,
) -> (aggregation: Aggregation)
    ensures
        aggregation.deep_view() == incomplete_answer(status, reason@, query.deep_view()),
{
    let mut aggregation = incomplete(status, reason);
    if let Some(query) = query {
        aggregation.impact = Some(unavailable_impact(query, reason, no_items()));
    }
    aggregation
}

/// Whether the facts of every invocation are complete.
pub open spec fn all_complete(invocations: Seq<GraphInvocationView>) -> bool {
    forall|i: int|
        0 <= i < invocations.len() ==> (#[trigger] invocations[i]).status
            == SemanticStatus::Complete
}

/// The conclusions from the reference graph: only complete evidence that closes the graph allows
/// any.
#[verifier::opaque]
pub open spec fn aggregation_of(
    world: WorldView,
    raw_status: SemanticStatus,
    query: Option<ImpactQueryView>,
) -> AggregationView {
    if raw_status != SemanticStatus::Complete {
        incomplete_answer(
            raw_status,
            "closed-world products require complete reference facts for every selected Cargo unit"@,
            query,
        )
    } else if world.invocations.len() == 0 {
        incomplete_answer(
            SemanticStatus::Unavailable,
            "no selected compiler fragments"@,
            query,
        )
    } else if !all_complete(world.invocations) {
        incomplete_answer(
            SemanticStatus::Partial,
            "at least one selected reference fragment is incomplete"@,
            query,
        )
    } else if world.errors() != Set::<Seq<char>>::empty() {
        incomplete_answer(
            SemanticStatus::Partial,
            "reference graph could not be closed: "@ + joined(
                ascending::<String>(world.errors()),
                "; "@,
            ),
            query,
        )
    } else {
        AggregationView {
            status: SemanticStatus::Complete,
            reason: None,
            required_visibility: Some(world.required_visibility()),
            closed_world: Some(world.report()),
            impact: match query {
                Some(query) => Some(impact_report_of(world, query)),
                None => None,
            },
        }
    }
}

/// Incomplete evidence never turns into findings: without complete facts for every invocation
/// there is no report at all, not even one without findings.
pub proof fn law_incomplete_evidence_fails_closed(
    world: WorldView,
    raw_status: SemanticStatus,
    query: Option<ImpactQueryView>,
)
    requires
        raw_status != SemanticStatus::Complete || world.invocations.len() == 0 || !all_complete(
            world.invocations,
        ) || world.errors() != Set::<Seq<char>>::empty(),
    ensures
        aggregation_of(world, raw_status, query).status != SemanticStatus::Complete,
        aggregation_of(world, raw_status, query).reason is Some,
        aggregation_of(world, raw_status, query).required_visibility is None,
        aggregation_of(world, raw_status, query).closed_world is None,
        aggregation_of(world, raw_status, query).impact matches Some(impact) ==> impact.status
            == SemanticStatus::Unavailable && impact.selected is None && impact.summary is None,
{
    reveal(aggregation_of);
}

/// Draws conclusions without a query.
pub fn aggregate(
    places: &Locations,
    raw_status: SemanticStatus,
    invocations: &Vec<GraphInvocation<'_>>,
) -> (aggregation: Aggregation)
    ensures
        aggregation.deep_view() == aggregation_of(
            (WorldView { places: places.deep_view(), invocations: invocations.deep_view() }),
            raw_status,
            None,
        ),
{
    aggregate_with_query(places, raw_status, invocations, None)
}

/// Draws conclusions from the reference graph of all invocations.
pub fn aggregate_with_query(
    places: &Locations,
    raw_status: SemanticStatus,
    invocations: &Vec<GraphInvocation<'_>>,
    query: Option<&ImpactQuery>,
) -> (aggregation: Aggregation)
    ensures
        aggregation.deep_view() == aggregation_of(
            (WorldView { places: places.deep_view(), invocations: invocations.deep_view() }),
            raw_status,
            query.deep_view(),
        ),
{
    proof {
        reveal(aggregation_of);
    }
    if raw_status != SemanticStatus::Complete {
        return incomplete_with_query(
            raw_status,
            "closed-world products require complete reference facts for every selected Cargo unit",
            query,
        );
    }
    if invocations.len() == 0 {
        return incomplete_with_query(
            SemanticStatus::Unavailable,
            "no selected compiler fragments",
            query,
        );
    }
    let mut index: usize = 0;
    while index < invocations.len()
        invariant
            index <= invocations.len(),
            invocations.len() > 0,
            raw_status == SemanticStatus::Complete,
            forall|i: int|
                0 <= i < index ==> (#[trigger] invocations.deep_view()[i]).status
                    == SemanticStatus::Complete,
        decreases invocations.len() - index,
    {
        proof {
            reveal(aggregation_of);
            assert(invocations.deep_view()[index as int]
                == invocations[index as int].deep_view());
        }
        if invocations[index].status != SemanticStatus::Complete {
            return incomplete_with_query(
                SemanticStatus::Partial,
                "at least one selected reference fragment is incomplete",
                query,
            );
        }
        index = index + 1;
    }
    let world = World { places, invocations };
    let ghost w = world.deep_view();
    let graph = build_graph(&world);
    proof {
        graph.errors.lemma_seq();
    }
    if graph.errors.len() > 0 {
        proof {
            assert(graph.errors.seq().contains(graph.errors.seq()[0]));
            assert(w.errors().contains(graph.errors.seq()[0]));
        }
        let mut reason = "reference graph could not be closed: ".to_owned();
        let complaints = copy_reasons(&graph.errors);
        reason.append(join(&complaints, "; ").as_str());
        return incomplete_with_query(SemanticStatus::Partial, reason.as_str(), query);
    }
    proof {
        assert(graph.errors.seq() =~= Seq::<Seq<char>>::empty());
        assert(w.errors() =~= Set::<Seq<char>>::empty());
    }
    let required_visibility = required_visibility_report(&world, &graph);
    let production = reached_nodes(&reachable(&graph.production_roots, &graph.runtime_edges));
    let nonproduction = reached_nodes(&reachable(&graph.nonproduction_roots, &graph.runtime_edges));
    let all = candidates(&world, &graph.nodes);
    let safe = safe_visibility_candidates(&world, &graph, &all);
    let candidates = retain_candidates(&all, &safe);
    let impact = match query {
        Some(query) => Some(
            impact_report(&world, &graph, query, &production, &nonproduction, &candidates),
        ),
        None => None,
    };
    let report = closed_world_report(&world, &graph, &candidates, &production, &nonproduction);
    Aggregation {
        status: SemanticStatus::Complete,
        reason: None,
        required_visibility: Some(required_visibility),
        closed_world: Some(report),
        impact,
    }
}

} // verus!
