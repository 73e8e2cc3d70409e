//! Who uses a definition, directly and through others.

use vstd::prelude::*;

use crate::collections::{
    ascending, collected, flat_image, group_at, image, least, lemma_cells, lemma_collected_step,
    lemma_flat_image_step, lemma_image_ends, lemma_image_step, lemma_least_step, list_cells,
    no_items, push_item, remove_repeats, second, stable_sort, stable_sorted, take_second,
    without_repeats, SortedMap, SortedSet,
};
use crate::compiler::closed_world::{
    evidence_exclusions, exclusions, lemma_nodes_fit, nodes_fit, scope_text,
};
use crate::compiler::consumers::{
    backwards, consumers, distance, law_searches_find_shortest_ways, lemma_place_in, place_in,
    reverse_reachable, search_order, visits, Consumers, Visit,
};
use crate::compiler::declarations::{
    compiled_class, compiled_provenance, definition_for_state, definition_in, definition_sort_key,
    impact_definition_key, impact_definition_of, impact_definition_report, impact_provenance,
    impact_reference_key, impact_reference_report, impact_reference_step, impact_witness_key,
    input_of, lemma_edge_fits, matching_physical_declarations, member_at, member_list,
    physical_declaration_key, physical_key_of, provenance_of, reference_sort_key,
    representative_for_nodes, states_for_nodes, witness_sort_key, ImpactQuery, ImpactQueryView,
};
use crate::compiler::graph::{
    definition_visibility_key, visibility_key_of, Graph, World, WorldView,
};
use crate::compiler::graph_keys::{
    GraphState, PhysicalDeclarationKey, PhysicalDeclarationKeyView, ReferenceEdge, RootEvidence,
    RootEvidenceView, VisibilityKey, VisibilityKeyView,
};
use crate::compiler::reach::is_walk;
use crate::model::{
    ImpactDefinitionReport, ImpactDefinitionReportView, ImpactProvenanceClass, ImpactQueryReport,
    ImpactQueryReportView, ImpactReferenceReport, ImpactReferenceReportView,
    ImpactReferenceStepReport, ImpactReferenceStepReportView, ImpactReport, ImpactReportView,
    ImpactSummaryReport, ImpactVisibilityDisposition, ImpactWitnessReport,
    ImpactWitnessReportView, SemanticStatus,
};
use crate::order::{Ordered, Rank};
use crate::protocol::RootKind;

verus! {

impl WorldView {
    /// The chain of uses from a visited state to a selected one, where all its steps are known.
    pub open spec fn chain(self, visited: Seq<Visit>, index: int) -> Option<
        Seq<ImpactReferenceStepReportView>,
    >
        decreases index,
    {
        match visited[index].edge {
            None => Some(Seq::empty()),
            Some(edge) => {
                let next = place_in(visited, edge.to);
                if 0 <= next < index {
                    match (self.step(edge), self.chain(visited, next)) {
                        (Some(step), Some(rest)) => Some(seq![step] + rest),
                        _ => None,
                    }
                } else {
                    None
                }
            },
        }
    }

    /// The class of the use that a root makes.
    pub open spec fn root_class(self, state: GraphState, evidence: RootEvidenceView) -> Option<
        ImpactProvenanceClass,
    > {
        if evidence.kind == RootKind::RequiredPublic {
            Some(ImpactProvenanceClass::PublicInterface)
        } else {
            compiled_class(self.invocations[state.invocation as int].target)
        }
    }

    /// The chain of uses from a root, with its class, where the root leads to a selected state.
    pub open spec fn witness(
        self,
        visited: Seq<Visit>,
        state: GraphState,
        evidence: RootEvidenceView,
    ) -> Option<(ImpactProvenanceClass, ImpactWitnessReportView)> {
        if !visits(visited, state) {
            None
        } else {
            match (
                self.root_class(state, evidence),
                self.definition_of_state(state),
                self.chain(visited, place_in(visited, state)),
            ) {
                (Some(class), Some(cell), Some(steps)) => Some(
                    (
                        class,
                        ImpactWitnessReportView {
                            provenance: provenance_of(
                                self.invocations[state.invocation as int],
                                class,
                            ),
                            root: impact_definition_of(
                                self.places,
                                self.invocations[state.invocation as int],
                                self.definition(cell),
                            ),
                            root_reason: evidence.reason,
                            steps,
                        },
                    ),
                ),
                _ => None,
            }
        }
    }

    /// The root states in ascending order.
    pub open spec fn root_states(self) -> Seq<GraphState> {
        ascending::<GraphState>(self.roots().dom())
    }

    /// The places of all pieces of root evidence, state by state.
    pub open spec fn evidence_cells(self) -> Seq<(usize, usize)> {
        crate::collections::cells(
            Seq::new(
                self.root_states().len(),
                |i: int| self.roots()[self.root_states()[i]].len() as usize,
            ),
        )
    }

    /// The witness that a piece of root evidence gives.
    pub open spec fn evidence_witness(self, visited: Seq<Visit>) -> spec_fn(
        (usize, usize),
    ) -> Option<(ImpactProvenanceClass, ImpactWitnessReportView)> {
        |cell: (usize, usize)|
            {
                let state = self.root_states()[cell.0 as int];
                self.witness(
                    visited,
                    state,
                    ascending::<RootEvidence>(self.roots()[state])[cell.1 as int],
                )
            }
    }

    /// All witnesses, root by root.
    pub open spec fn all_witnesses(self, visited: Seq<Visit>) -> Seq<
        (ImpactProvenanceClass, ImpactWitnessReportView),
    > {
        collected(self.evidence_cells(), self.evidence_witness(visited))
    }

    /// The best witness of each class.
    pub open spec fn witnesses(self, visited: Seq<Visit>) -> Seq<ImpactWitnessReportView> {
        collected(classes(), best_witness(self.all_witnesses(visited)))
    }

    /// The classes of the uses of a visited state.
    pub open spec fn visit_classes(self, selected: Set<GraphState>) -> spec_fn(Visit) -> Set<
        ImpactProvenanceClass,
    > {
        |visit: Visit|
            if selected.contains(visit.state) && !self.roots().contains_key(visit.state) {
                Set::empty()
            } else {
                let compiled = match compiled_class(
                    self.invocations[visit.state.invocation as int].target,
                ) {
                    Some(class) => Set::<ImpactProvenanceClass>::empty().insert(class),
                    None => Set::empty(),
                };
                if requires_public(group_at(self.roots(), visit.state)) {
                    compiled.insert(ImpactProvenanceClass::PublicInterface)
                } else {
                    compiled
                }
            }
    }

    /// The classes of all uses.
    pub open spec fn use_classes(self, selected: Set<GraphState>, visited: Seq<Visit>) -> Set<
        ImpactProvenanceClass,
    > {
        flat_image(visited, self.visit_classes(selected)).union(
            image(
                self.witnesses(visited),
                |witness: ImpactWitnessReportView| Some(witness.provenance.class),
            ),
        )
    }

    /// The declaration behind a visited state that is not selected.
    pub open spec fn consumer_key(self, selected: Set<GraphState>) -> spec_fn(Visit) -> Option<
        PhysicalDeclarationKeyView,
    > {
        |visit: Visit|
            if selected.contains(visit.state) {
                None
            } else {
                match self.definition_of_state(visit.state) {
                    Some(cell) => Some(
                        physical_key_of(
                            self.places,
                            self.invocations[visit.state.invocation as int],
                            self.definition(cell),
                        ),
                    ),
                    None => None,
                }
            }
    }

    /// The visibility that a definition of some nodes shares.
    pub open spec fn node_visibility(self, nodes: Set<usize>) -> spec_fn((usize, usize)) -> Option<
        VisibilityKeyView,
    > {
        |place: (usize, usize)|
            if nodes.contains(place.0) {
                visibility_key_of(
                    self.places,
                    self.input(self.member(place)),
                    self.definition(self.member(place)),
                )
            } else {
                None
            }
    }

    /// The node of a definition whose visibility is one of some.
    pub open spec fn sharing_node(self, keys: Set<VisibilityKeyView>) -> spec_fn(
        (usize, usize),
    ) -> Option<usize> {
        |place: (usize, usize)|
            match visibility_key_of(
                self.places,
                self.input(self.member(place)),
                self.definition(self.member(place)),
            ) {
                Some(key) if keys.contains(key) => Some(place.0),
                _ => None,
            }
    }

    /// The nodes that share the visibility of some nodes; without a visibility, the nodes alone.
    pub open spec fn visibility_nodes(self, nodes: Set<usize>) -> Set<usize> {
        let keys = image(self.member_cells(), self.node_visibility(nodes));
        if keys == Set::<VisibilityKeyView>::empty() {
            nodes
        } else {
            image(self.member_cells(), self.sharing_node(keys))
        }
    }

    /// Whether the selected nodes have to be public, can be narrowed, or are dead.
    pub open spec fn disposition(self, nodes: Set<usize>) -> ImpactVisibilityDisposition {
        let shared = self.visibility_nodes(nodes);
        if exists|node: usize| #[trigger]
            shared.contains(node) && self.required_nodes().contains_key(node) {
            ImpactVisibilityDisposition::RequiredPublic
        } else if exists|node: usize| #[trigger]
            shared.contains(node) && self.candidates().contains_key(node) {
            if exists|node: usize| #[trigger]
                shared.contains(node) && (self.production_live().contains(node)
                    || self.nonproduction_live().contains(node)) {
                ImpactVisibilityDisposition::NarrowablePublic
            } else {
                ImpactVisibilityDisposition::DeadPublic
            }
        } else {
            ImpactVisibilityDisposition::NotPublicCandidate
        }
    }

    /// The report on a direct use of a selected state, with its sort key.
    pub open spec fn direct_entry(self, selected: Set<GraphState>) -> spec_fn(
        ReferenceEdge,
    ) -> Option<(Seq<char>, ImpactReferenceReportView)> {
        |edge: ReferenceEdge|
            if selected.contains(edge.to) {
                match self.direct_use(edge) {
                    Some(report) => Some((reference_sort_key(report), report)),
                    None => None,
                }
            } else {
                None
            }
    }

    /// All direct uses of the selected states, sorted, each once.
    pub open spec fn direct_uses(self, selected: Set<GraphState>) -> Seq<
        ImpactReferenceReportView,
    > {
        without_repeats(
            second(
                stable_sorted::<String, ImpactReferenceReport>(
                    collected(self.edge_list(), self.direct_entry(selected)),
                ),
            ),
        )
    }

    /// The report on the definition that stands for a declaration.
    pub open spec fn asked_report(self, query: ImpactQueryView) -> spec_fn(
        PhysicalDeclarationKeyView,
    ) -> Option<ImpactDefinitionReportView> {
        |key: PhysicalDeclarationKeyView|
            match self.representative_of_nodes(self.asked(query)[key], query) {
                Some(cell) => Some(
                    impact_definition_of(self.places, self.input(cell), self.definition(cell)),
                ),
                None => None,
            }
    }
}

/// Whether evidence says that a state has to be public.
pub open spec fn requires_public(evidence: Set<RootEvidenceView>) -> bool {
    exists|piece: RootEvidenceView| #[trigger]
        evidence.contains(piece) && piece.kind == RootKind::RequiredPublic
}

/// The classes of uses, in the order of reports.
pub open spec fn classes() -> Seq<ImpactProvenanceClass> {
    seq![
        ImpactProvenanceClass::Production,
        ImpactProvenanceClass::Nonproduction,
        ImpactProvenanceClass::BuildTime,
        ImpactProvenanceClass::PublicInterface,
    ]
}

/// Picks the witnesses of a class.
pub open spec fn of_class(class: ImpactProvenanceClass) -> spec_fn(
    (ImpactProvenanceClass, ImpactWitnessReportView),
) -> Option<ImpactWitnessReportView> {
    |entry: (ImpactProvenanceClass, ImpactWitnessReportView)|
        if entry.0 == class {
            Some(entry.1)
        } else {
            None
        }
}

/// Whether a witness is better than another one: shorter, or else named before it.
pub open spec fn witness_before() -> spec_fn(
    ImpactWitnessReportView,
    ImpactWitnessReportView,
) -> bool {
    |a: ImpactWitnessReportView, b: ImpactWitnessReportView|
        <(usize, String) as Ordered>::precedes(witness_sort_key(a), witness_sort_key(b))
}

/// The best witness of a class.
pub open spec fn best_witness(
    entries: Seq<(ImpactProvenanceClass, ImpactWitnessReportView)>,
) -> spec_fn(ImpactProvenanceClass) -> Option<ImpactWitnessReportView> {
    |class: ImpactProvenanceClass| least(collected(entries, of_class(class)), witness_before())
}

/// The query as it is reported.
pub open spec fn query_report(query: ImpactQueryView) -> ImpactQueryReportView {
    ImpactQueryReportView {
        package: query.package,
        definition_path: query.definition_path,
        path: match query.location {
            Some(location) => Some(location.path),
            None => None,
        },
        line: match query.location {
            Some(location) => Some(location.line),
            None => None,
        },
        column: match query.location {
            Some(location) => Some(location.column),
            None => None,
        },
    }
}

/// Reports a query.
pub fn impact_query_report(query: &ImpactQuery) -> (report: ImpactQueryReport)
    ensures
        report.deep_view() == query_report(query.deep_view()),
{
    match &query.location {
        Some(location) => ImpactQueryReport {
            package: query.package.clone(),
            definition_path: query.definition_path.clone(),
            path: Some(location.path.clone()),
            line: Some(location.line),
            column: Some(location.column),
        },
        None => ImpactQueryReport {
            package: query.package.clone(),
            definition_path: query.definition_path.clone(),
            path: None,
            line: None,
            column: None,
        },
    }
}

/// What a reader is told about spans of uses.
pub open spec fn site_note() -> Seq<char> {
    "Reference spans are representative reference sites, not exhaustive call sites."@
}

/// Definitions with their sort keys.
pub open spec fn keyed_definitions(definitions: Seq<ImpactDefinitionReportView>) -> Seq<
    (Seq<char>, ImpactDefinitionReportView),
> {
    Seq::new(definitions.len(), |i: int| (definition_sort_key(definitions[i]), definitions[i]))
}

/// A report without a selected definition.
pub open spec fn unavailable_impact_of(
    query: ImpactQueryView,
    reason: Seq<char>,
    candidates: Seq<ImpactDefinitionReportView>,
) -> ImpactReportView {
    ImpactReportView {
        status: SemanticStatus::Unavailable,
        reason: Some(reason),
        scope: scope_text(),
        evidence_exclusions: exclusions(),
        query: query_report(query),
        candidates: without_repeats(
            second(stable_sorted::<String, ImpactDefinitionReport>(keyed_definitions(candidates))),
        ),
        selected: None,
        visibility_disposition: None,
        summary: None,
        direct_references: Seq::empty(),
        witnesses: Seq::empty(),
        reference_site_note: site_note(),
    }
}

/// Reports that no definition could be selected.
pub fn unavailable_impact(
    query: &ImpactQuery,
    reason: &str,
    candidates: Vec<ImpactDefinitionReport>,
) -> (report: ImpactReport)
    ensures
        report.deep_view() == unavailable_impact_of(
            query.deep_view(),
            reason@,
            candidates.deep_view(),
        ),
{
    let ghost all = candidates.deep_view();
    let mut entries: Vec<(String, ImpactDefinitionReport)> = no_items();
    for candidate in it: candidates
        invariant
            all.len() == it.seq().len(),
            forall|i: int| 0 <= i < all.len() ==> #[trigger] all[i] == it.seq()[i].deep_view(),
            entries.deep_view() =~= keyed_definitions(all).take(it.index() as int),
    {
        proof {
            assert(all[it.index() as int] == candidate.deep_view());
        }
        let key = impact_definition_key(&candidate);
        push_item(&mut entries, (key, candidate));
    }
    proof {
        assert(entries.deep_view() =~= keyed_definitions(all));
    }
    let direct_references: Vec<ImpactReferenceReport> = no_items();
    let witnesses: Vec<ImpactWitnessReport> = no_items();
    ImpactReport {
        status: SemanticStatus::Unavailable,
        reason: Some(reason.to_owned()),
        scope: "selected-workspace compiled-target closed world".to_owned(),
        evidence_exclusions: evidence_exclusions(),
        query: impact_query_report(query),
        candidates: remove_repeats(take_second(stable_sort(entries))),
        selected: None,
        visibility_disposition: None,
        summary: None,
        direct_references,
        witnesses,
        reference_site_note:
            "Reference spans are representative reference sites, not exhaustive call sites.".to_owned(),
    }
}

/// The report on the one declaration that a query selects.
pub open spec fn selected_impact_of(
    world: WorldView,
    query: ImpactQueryView,
    nodes: Set<usize>,
) -> ImpactReportView {
    let states = world.states_of_nodes(nodes);
    let visited = consumers(states, world.reference_edges());
    let uses = world.use_classes(states, visited);
    ImpactReportView {
        status: SemanticStatus::Complete,
        reason: None,
        scope: scope_text(),
        evidence_exclusions: exclusions(),
        query: query_report(query),
        candidates: Seq::empty(),
        selected: match world.representative_of_nodes(nodes, query) {
            Some(cell) => Some(
                impact_definition_of(world.places, world.input(cell), world.definition(cell)),
            ),
            None => None,
        },
        visibility_disposition: Some(world.disposition(nodes)),
        summary: Some(
            ImpactSummaryReport {
                direct_reference_relationships: world.direct_uses(states).len() as u64,
                transitive_consumers: image(visited, world.consumer_key(states)).len() as u64,
                production: uses.contains(ImpactProvenanceClass::Production),
                nonproduction: uses.contains(ImpactProvenanceClass::Nonproduction),
                build_time: uses.contains(ImpactProvenanceClass::BuildTime),
                public_interface: uses.contains(ImpactProvenanceClass::PublicInterface),
            },
        ),
        direct_references: world.direct_uses(states),
        witnesses: world.witnesses(visited),
        reference_site_note: site_note(),
    }
}

/// The report on a definition: it has to be the only declaration that the query asks about.
pub open spec fn impact_report_of(world: WorldView, query: ImpactQueryView) -> ImpactReportView {
    let asked = world.asked(query);
    let keys = ascending::<PhysicalDeclarationKey>(asked.dom());
    let reports = collected(keys, world.asked_report(query));
    if keys.len() == 0 {
        unavailable_impact_of(
            query,
            "no compiled definition exactly matched the requested package, definition path, and optional source location"@,
            reports,
        )
    } else if keys.len() != 1 {
        unavailable_impact_of(
            query,
            "the query matched multiple physical declarations; add an exact source path, line, and column"@,
            reports,
        )
    } else {
        selected_impact_of(world, query, asked[keys[0]])
    }
}

/// Follows the chain of uses from a visited state to a selected one.
fn follow_chain(
    world: &World<'_>,
    graph: &Graph,
    found: &Consumers,
    start: usize,
    Ghost(selected): Ghost<Set<GraphState>>,
) -> (steps: Option<Vec<ImpactReferenceStepReport>>)
    requires
        graph.describes(world.deep_view()),
        found.wf(),
        search_order(selected, world.deep_view().reference_edges(), found.visited@),
        start < found.visited@.len(),
    ensures
        steps.deep_view() == world.deep_view().chain(found.visited@, start as int),
{
    let ghost w = world.deep_view();
    let ghost visited = found.visited@;
    let mut steps: Vec<ImpactReferenceStepReport> = no_items();
    let mut current: usize = start;
    proof {
        let whole = w.chain(visited, start as int);
        if let Some(rest) = whole {
            assert(steps.deep_view() + rest =~= rest);
        }
    }
    loop
        invariant
            w == world.deep_view(),
            visited == found.visited@,
            graph.describes(w),
            found.wf(),
            search_order(selected, w.reference_edges(), visited),
            current < visited.len(),
            w.chain(visited, start as int) == match w.chain(visited, current as int) {
                Some(rest) => Some(steps.deep_view() + rest),
                None => None,
            },
        decreases current,
    {
        match found.visited[current].edge {
            None => {
                proof {
                    assert(steps.deep_view() + Seq::<ImpactReferenceStepReportView>::empty()
                        =~= steps.deep_view());
                }
                return Some(steps);
            },
            Some(edge) => {
                let ghost before = steps.deep_view();
                proof {
                    assert(visited[current as int].edge == Some(edge));
                    let j = choose|j: int|
                        0 <= j < current && (#[trigger] visited[j]).state == edge.to;
                    lemma_place_in(visited, j);
                    assert(found.places.deep_view().contains_key(visited[j].state));
                    assert(found.places.deep_view()[visited[j].state] == j);
                    lemma_edge_fits(world, edge);
                }
                let next: usize = match found.places.get(&edge.to) {
                    Some(place) => *place,
                    None => {
                        return None;
                    },
                };
                let ghost rest = w.chain(visited, next as int);
                match impact_reference_step(world, graph, edge) {
                    None => {
                        return None;
                    },
                    Some(step) => {
                        let ghost added = step.deep_view();
                        push_item(&mut steps, step);
                        proof {
                            if let Some(tail) = rest {
                                assert(before + (seq![added] + tail) =~= steps.deep_view() + tail);
                            }
                        }
                    },
                }
                current = next;
            },
        }
    }
}

/// The states that are roots are seen by invocations of the world.
proof fn lemma_root_state(world: &World<'_>, state: GraphState)
    requires
        world.deep_view().roots().contains_key(state),
    ensures
        state.invocation < world.deep_view().invocations.len(),
{
    let w = world.deep_view();
    let all = w.root_cells();
    let f = w.root_evidence();
    let i = choose|i: int|
        0 <= i < all.len() && f(#[trigger] all[i]) is Some && (f(all[i])->0).0 == state;
    crate::compiler::graph::lemma_world_fits(world);
    lemma_cells(crate::compiler::graph::root_counts(w.invocations));
    assert(all[i].0 == state.invocation);
}

/// Finds the chains of uses from all roots.
fn list_witnesses(
    world: &World<'_>,
    graph: &Graph,
    found: &Consumers,
    Ghost(selected): Ghost<Set<GraphState>>,
) -> (entries: Vec<(ImpactProvenanceClass, ImpactWitnessReport)>)
    requires
        graph.describes(world.deep_view()),
        found.wf(),
        search_order(selected, world.deep_view().reference_edges(), found.visited@),
    ensures
        entries.deep_view() == world.deep_view().all_witnesses(found.visited@),
{
    let ghost w = world.deep_view();
    let ghost visited = found.visited@;
    let ghost states = w.root_states();
    let ghost lengths = Seq::new(states.len(), |i: int| w.roots()[states[i]].len() as usize);
    let mut counts: Vec<usize> = Vec::new();
    let mut row: usize = 0;
    proof {
        graph.roots.lemma_places();
    }
    while row < graph.roots.len()
        invariant
            graph.describes(w),
            states == w.root_states(),
            states == graph.roots.key_seq(),
            lengths == Seq::new(states.len(), |i: int| w.roots()[states[i]].len() as usize),
            row <= states.len(),
            counts@ =~= lengths.take(row as int),
        decreases states.len() - row,
    {
        let group = graph.roots.group(row);
        proof {
            group.lemma_seq();
        }
        counts.push(group.len());
        row = row + 1;
    }
    proof {
        assert(counts@ =~= lengths);
        lemma_cells(lengths);
    }
    let list = list_cells(&counts);
    let ghost all = w.evidence_cells();
    let ghost f = w.evidence_witness(visited);
    let mut entries: Vec<(ImpactProvenanceClass, ImpactWitnessReport)> = no_items();
    let mut index: usize = 0;
    proof {
        assert(all.take(0) =~= Seq::<(usize, usize)>::empty());
    }
    while index < list.len()
        invariant
            w == world.deep_view(),
            visited == found.visited@,
            graph.describes(w),
            found.wf(),
            search_order(selected, w.reference_edges(), visited),
            states == w.root_states(),
            states == graph.roots.key_seq(),
            lengths == Seq::new(states.len(), |i: int| w.roots()[states[i]].len() as usize),
            all == w.evidence_cells(),
            list@ == all,
            f == w.evidence_witness(visited),
            forall|k: int|
                0 <= k < all.len() ==> (#[trigger] all[k]).0 < lengths.len() && all[k].1
                    < lengths[all[k].0 as int],
            index <= list.len(),
            entries.deep_view() == collected(all.take(index as int), f),
        decreases list.len() - index,
    {
        let cell = list[index];
        proof {
            assert(all[index as int] == cell);
            lemma_collected_step(all, f, index as int);
            graph.roots.lemma_places();
            assert(graph.roots.deep_view().dom().contains(states[cell.0 as int]));
        }
        let state: GraphState = *graph.roots.key_at(cell.0);
        let group = graph.roots.group(cell.0);
        proof {
            group.lemma_seq();
            lemma_root_state(world, state);
        }
        let evidence = group.get(cell.1);
        if found.contains(&state) {
            let input = input_of(world, state.invocation);
            let class = if evidence.kind == RootKind::RequiredPublic {
                Some(ImpactProvenanceClass::PublicInterface)
            } else {
                compiled_provenance(input.target)
            };
            if let Some(class) = class {
                if let Some(root) = definition_for_state(world, graph, state) {
                    proof {
                        let i = choose|i: int|
                            0 <= i < visited.len() && (#[trigger] visited[i]).state == state;
                        lemma_place_in(visited, i);
                        assert(found.places.deep_view().contains_key(visited[i].state));
                        assert(found.places.deep_view()[visited[i].state] == i);
                    }
                    if let Some(place) = found.places.get(&state) {
                        if let Some(steps) = follow_chain(
                            world,
                            graph,
                            found,
                            *place,
                            Ghost(selected),
                        ) {
                            let definition = definition_in(world, root);
                            let witness = ImpactWitnessReport {
                                provenance: impact_provenance(input, class),
                                root: impact_definition_report(world.places, input, definition),
                                root_reason: evidence.reason.clone(),
                                steps,
                            };
                            push_item(&mut entries, (class, witness));
                        }
                    }
                }
            }
        }
        index = index + 1;
    }
    proof {
        assert(all.take(all.len() as int) =~= all);
    }
    entries
}

fn choose_witness(
    entries: &Vec<(ImpactProvenanceClass, ImpactWitnessReport)>,
    class: ImpactProvenanceClass,
) -> (best: Option<usize>)
    ensures
        best matches Some(index) ==> index < entries.len() && best_witness(entries.deep_view())(
            class,
        ) == Some(entries.deep_view()[index as int].1),
        best is None ==> best_witness(entries.deep_view())(class) is None,
{
    let ghost all = entries.deep_view();
    let ghost pick = of_class(class);
    let ghost before = witness_before();
    let mut best: Option<usize> = None;
    let mut index: usize = 0;
    proof {
        assert(collected(all.take(0), pick) =~= Seq::<ImpactWitnessReportView>::empty());
    }
    while index < entries.len()
        invariant
            all == entries.deep_view(),
            pick == of_class(class),
            before == witness_before(),
            index <= all.len(),
            best matches Some(held) ==> held < all.len() && least(
                collected(all.take(index as int), pick),
                before,
            ) == Some(all[held as int].1),
            best is None ==> least(collected(all.take(index as int), pick), before) is None,
        decreases all.len() - index,
    {
        let ghost sofar = collected(all.take(index as int), pick);
        proof {
            lemma_collected_step(all, pick, index as int);
            assert(all[index as int] == entries[index as int].deep_view());
        }
        if entries[index].0 == class {
            proof {
                let longer = sofar.push(all[index as int].1);
                lemma_least_step(longer, before, sofar.len() as int);
                assert(longer.take(sofar.len() as int) =~= sofar);
                assert(longer.take(sofar.len() as int + 1) =~= longer);
            }
            match best {
                None => {
                    best = Some(index);
                },
                Some(held) => {
                    let key = impact_witness_key(&entries[index].1);
                    let held_key = impact_witness_key(&entries[held].1);
                    proof {
                        assert(all[held as int] == entries[held as int].deep_view());
                        let x = key.deep_view();
                        let y = held_key.deep_view();
                        <(usize, String) as Ordered>::irreflexive(x);
                        if <(usize, String) as Ordered>::precedes(x, y) && <(
                            usize,
                            String,
                        ) as Ordered>::precedes(y, x) {
                            <(usize, String) as Ordered>::transitive(x, y, x);
                        }
                    }
                    match key.rank(&held_key) {
                        Rank::Less => {
                            best = Some(index);
                        },
                        _ => {},
                    }
                },
            }
        }
        index = index + 1;
    }
    proof {
        assert(all.take(all.len() as int) =~= all);
    }
    best
}

/// Finds the best chain of uses of each class.
pub fn impact_witnesses(
    world: &World<'_>,
    graph: &Graph,
    selected: &SortedSet<GraphState>,
    found: &Consumers,
) -> (witnesses: Vec<ImpactWitnessReport>)
    requires
        graph.describes(world.deep_view()),
        found.wf(),
        search_order(
            selected.deep_view(),
            world.deep_view().reference_edges(),
            found.visited@,
        ),
    ensures
        witnesses.deep_view() == world.deep_view().witnesses(found.visited@),
{
    let ghost w = world.deep_view();
    let entries = list_witnesses(world, graph, found, Ghost(selected.deep_view()));
    let ghost f = best_witness(entries.deep_view());
    let mut kinds: Vec<ImpactProvenanceClass> = Vec::new();
    kinds.push(ImpactProvenanceClass::Production);
    kinds.push(ImpactProvenanceClass::Nonproduction);
    kinds.push(ImpactProvenanceClass::BuildTime);
    kinds.push(ImpactProvenanceClass::PublicInterface);
    let mut witnesses: Vec<ImpactWitnessReport> = no_items();
    let mut index: usize = 0;
    proof {
        assert(kinds@ =~= classes());
        assert(classes().take(0) =~= Seq::<ImpactProvenanceClass>::empty());
    }
    while index < kinds.len()
        invariant
            kinds@ == classes(),
            f == best_witness(entries.deep_view()),
            index <= kinds.len(),
            witnesses.deep_view() == collected(classes().take(index as int), f),
        decreases kinds.len() - index,
    {
        proof {
            lemma_collected_step(classes(), f, index as int);
        }
        if let Some(best) = choose_witness(&entries, kinds[index]) {
            proof {
                assert(entries.deep_view()[best as int] == entries[best as int].deep_view());
            }
            push_item(&mut witnesses, entries[best].1.clone());
        }
        index = index + 1;
    }
    proof {
        assert(classes().take(classes().len() as int) =~= classes());
    }
    witnesses
}

/// Finds the nodes that share the visibility of some nodes.
pub fn physical_visibility_nodes(
    world: &World<'_>,
    graph: &Graph,
    nodes: &SortedSet<usize>,
) -> (shared: SortedSet<usize>)
    requires
        graph.describes(world.deep_view()),
        nodes.wf(),
    ensures
        shared.wf(),
        shared.deep_view() == world.deep_view().visibility_nodes(nodes.deep_view()),
{
    let ghost w = world.deep_view();
    let ghost some = nodes.deep_view();
    let list = member_list(world, graph);
    let ghost all = w.member_cells();
    let ghost f = w.node_visibility(some);
    let mut keys: SortedSet<VisibilityKey> = SortedSet::new();
    let mut index: usize = 0;
    proof {
        lemma_nodes_fit(world);
        lemma_image_ends(all, f);
    }
    while index < list.len()
        invariant
            w == world.deep_view(),
            some == nodes.deep_view(),
            graph.describes(w),
            nodes_fit(w),
            nodes.wf(),
            all == w.member_cells(),
            list@ == all,
            f == w.node_visibility(some),
            forall|k: int|
                0 <= k < list@.len() ==> (#[trigger] list@[k]).0 < w.nodes().len() && list@[k].1
                    < w.nodes()[list@[k].0 as int].len(),
            index <= list.len(),
            keys.wf(),
            keys.deep_view() == image(all.take(index as int), f),
        decreases list.len() - index,
    {
        proof {
            lemma_image_step(all, f, index as int);
        }
        let place = list[index];
        if nodes.contains(&place.0) {
            let cell = member_at(world, graph, place);
            if let Some(key) = definition_visibility_key(
                world.places,
                input_of(world, cell.0),
                definition_in(world, cell),
            ) {
                keys.insert(key);
            }
        }
        index = index + 1;
    }
    let ghost held = keys.deep_view();
    proof {
        lemma_image_ends(all, f);
        keys.lemma_seq();
        nodes.lemma_seq();
    }
    let mut shared: SortedSet<usize> = SortedSet::new();
    if keys.len() == 0 {
        proof {
            assert(keys.seq() =~= Seq::<VisibilityKeyView>::empty());
            assert(held =~= Set::<VisibilityKeyView>::empty());
        }
        let mut at: usize = 0;
        proof {
            assert(nodes.seq().take(0).to_set() =~= Set::<usize>::empty());
        }
        while at < nodes.len()
            invariant
                nodes.wf(),
                shared.wf(),
                at <= nodes.seq().len(),
                shared.deep_view() == nodes.seq().take(at as int).to_set(),
            decreases nodes.seq().len() - at,
        {
            proof {
                crate::collections::lemma_prefix_set(nodes.seq(), at as int);
            }
            shared.insert(*nodes.get(at));
            at = at + 1;
        }
        proof {
            assert(nodes.seq().take(nodes.seq().len() as int) =~= nodes.seq());
        }
        return shared;
    }
    proof {
        assert(keys.seq().contains(keys.seq()[0]));
        assert(held.contains(keys.seq()[0]));
    }
    let ghost g = w.sharing_node(held);
    let mut done: usize = 0;
    proof {
        lemma_image_ends(all, g);
    }
    while done < list.len()
        invariant
            w == world.deep_view(),
            graph.describes(w),
            nodes_fit(w),
            all == w.member_cells(),
            list@ == all,
            g == w.sharing_node(held),
            forall|k: int|
                0 <= k < list@.len() ==> (#[trigger] list@[k]).0 < w.nodes().len() && list@[k].1
                    < w.nodes()[list@[k].0 as int].len(),
            done <= list.len(),
            keys.wf(),
            keys.deep_view() == held,
            shared.wf(),
            shared.deep_view() == image(all.take(done as int), g),
        decreases list.len() - done,
    {
        proof {
            lemma_image_step(all, g, done as int);
        }
        let place = list[done];
        let cell = member_at(world, graph, place);
        if let Some(key) = definition_visibility_key(
            world.places,
            input_of(world, cell.0),
            definition_in(world, cell),
        ) {
            if keys.contains(&key) {
                shared.insert(place.0);
            }
        }
        done = done + 1;
    }
    proof {
        lemma_image_ends(all, g);
    }
    shared
}

/// Every visited state is seen by an invocation of the world.
proof fn lemma_visited_state(world: &World<'_>, nodes: Set<usize>, visited: Seq<Visit>, index: int)
    requires
        nodes_fit(world.deep_view()),
        world.deep_view().definition_cells().len() <= usize::MAX,
        search_order(
            world.deep_view().states_of_nodes(nodes),
            world.deep_view().reference_edges(),
            visited,
        ),
        0 <= index < visited.len(),
        forall|k: int|
            0 <= k < world.deep_view().member_cells().len() ==> (
            #[trigger] world.deep_view().member_cells()[k]).0 < world.deep_view().nodes().len()
               
                    && world.deep_view().member_cells()[k].1 < world.deep_view().nodes()[world.deep_view().member_cells()[k].0 as int].len(),
    ensures
        visited[index].state.invocation < world.deep_view().invocations.len(),
{
    let w = world.deep_view();
    let visit = visited[index];
    match visit.edge {
        None => {
            let all = w.member_cells();
            let f = |place: (usize, usize)|
                if nodes.contains(place.0) {
                    Some(GraphState { invocation: w.member(place).0, node: place.0 })
                } else {
                    None
                };
            assert(w.states_of_nodes(nodes).contains(visit.state));
            let k = choose|k: int| 0 <= k < all.len() && f(#[trigger] all[k]) == Some(visit.state);
            let place = all[k];
            assert(w.nodes()[place.0 as int][place.1 as int].0 < w.invocations.len());
        },
        Some(edge) => {
            lemma_edge_fits(world, edge);
        },
    }
}

fn has_public_evidence(group: &SortedSet<RootEvidence>) -> (found: bool)
    requires
        group.wf(),
    ensures
        found == requires_public(group.deep_view()),
{
    let ghost all = group.seq();
    let mut index: usize = 0;
    while index < group.len()
        invariant
            group.wf(),
            all == group.seq(),
            index <= all.len(),
            forall|i: int|
                0 <= i < index ==> (#[trigger] all[i]).kind != RootKind::RequiredPublic,
        decreases all.len() - index,
    {
        if group.get(index).kind == RootKind::RequiredPublic {
            proof {
                assert(all.contains(all[index as int]));
                assert(group.deep_view().contains(all[index as int]));
            }
            return true;
        }
        index = index + 1;
    }
    proof {
        if requires_public(group.deep_view()) {
            let piece = choose|piece: RootEvidenceView| #[trigger]
                group.deep_view().contains(piece) && piece.kind == RootKind::RequiredPublic;
            let i = choose|i: int| 0 <= i < all.len() && all[i] == piece;
            assert(all[i].kind == RootKind::RequiredPublic);
        }
    }
    false
}

/// Lists all direct uses of the selected states.
fn direct_uses(world: &World<'_>, graph: &Graph, selected: &SortedSet<GraphState>) -> (uses: Vec<
    ImpactReferenceReport,
>)
    requires
        graph.describes(world.deep_view()),
        selected.wf(),
    ensures
        uses.deep_view() == world.deep_view().direct_uses(selected.deep_view()),
{
    let ghost w = world.deep_view();
    let ghost chosen = selected.deep_view();
    let ghost list = w.edge_list();
    let ghost entry_of = w.direct_entry(chosen);
    let mut entries: Vec<(String, ImpactReferenceReport)> = no_items();
    let mut index: usize = 0;
    proof {
        graph.reference_edges.lemma_seq();
        assert(list.take(0) =~= Seq::<ReferenceEdge>::empty());
    }
    while index < graph.reference_edges.len()
        invariant
            w == world.deep_view(),
            graph.describes(w),
            selected.wf(),
            chosen == selected.deep_view(),
            list == w.edge_list(),
            list == graph.reference_edges.seq(),
            entry_of == w.direct_entry(chosen),
            index <= list.len(),
            entries.deep_view() == collected(list.take(index as int), entry_of),
        decreases list.len() - index,
    {
        let edge: ReferenceEdge = *graph.reference_edges.get(index);
        proof {
            lemma_collected_step(list, entry_of, index as int);
            assert(list.contains(edge));
            assert(w.reference_edges().contains(edge));
            lemma_edge_fits(world, edge);
        }
        if selected.contains(&edge.to) {
            if let Some(report) = impact_reference_report(world, graph, edge) {
                let key = impact_reference_key(&report);
                push_item(&mut entries, (key, report));
            }
        }
        index = index + 1;
    }
    proof {
        assert(list.take(list.len() as int) =~= list);
    }
    remove_repeats(take_second(stable_sort(entries)))
}

/// The declarations that lead to the selected one, and the classes of their uses.
struct UseFacts {
    keys: SortedSet<PhysicalDeclarationKey>,
    classes: SortedSet<ImpactProvenanceClass>,
}

/// Gathers the declarations that lead to the selected one, and the classes of their uses.
fn collect_uses(
    world: &World<'_>,
    graph: &Graph,
    nodes: &SortedSet<usize>,
    selected: &SortedSet<GraphState>,
    found: &Consumers,
) -> (facts: UseFacts)
    requires
        graph.describes(world.deep_view()),
        nodes.wf(),
        selected.wf(),
        selected.deep_view() == world.deep_view().states_of_nodes(nodes.deep_view()),
        search_order(
            selected.deep_view(),
            world.deep_view().reference_edges(),
            found.visited@,
        ),
    ensures
        facts.keys.wf(),
        facts.classes.wf(),
        facts.keys.deep_view() == image(
            found.visited@,
            world.deep_view().consumer_key(selected.deep_view()),
        ),
        facts.classes.deep_view() == flat_image(
            found.visited@,
            world.deep_view().visit_classes(selected.deep_view()),
        ),
{
    let ghost w = world.deep_view();
    let ghost chosen = selected.deep_view();
    let ghost visited = found.visited@;
    let ghost key_of = w.consumer_key(chosen);
    let ghost classes_of = w.visit_classes(chosen);
    let places = member_list(world, graph);
    let mut keys: SortedSet<PhysicalDeclarationKey> = SortedSet::new();
    let mut uses: SortedSet<ImpactProvenanceClass> = SortedSet::new();
    let mut at: usize = 0;
    proof {
        lemma_nodes_fit(world);
        lemma_image_ends(visited, key_of);
        assert(flat_image(visited.take(0), classes_of) =~= Set::<ImpactProvenanceClass>::empty());
    }
    while at < found.visited.len()
        invariant
            w == world.deep_view(),
            graph.describes(w),
            nodes_fit(w),
            selected.wf(),
            chosen == selected.deep_view(),
            chosen == w.states_of_nodes(nodes.deep_view()),
            visited == found.visited@,
            search_order(chosen, w.reference_edges(), visited),
            places@ == w.member_cells(),
            forall|k: int|
                0 <= k < places@.len() ==> (#[trigger] places@[k]).0 < w.nodes().len()
                    && places@[k].1 < w.nodes()[places@[k].0 as int].len(),
            key_of == w.consumer_key(chosen),
            classes_of == w.visit_classes(chosen),
            at <= visited.len(),
            keys.wf(),
            uses.wf(),
            keys.deep_view() == image(visited.take(at as int), key_of),
            uses.deep_view() == flat_image(visited.take(at as int), classes_of),
        decreases visited.len() - at,
    {
        let visit: Visit = found.visited[at];
        let state: GraphState = visit.state;
        let ghost before = uses.deep_view();
        proof {
            lemma_image_step(visited, key_of, at as int);
            lemma_flat_image_step(visited, classes_of, at as int);
            lemma_visited_state(world, nodes.deep_view(), visited, at as int);
        }
        let is_selected = selected.contains(&state);
        if !is_selected {
            if let Some(cell) = definition_for_state(world, graph, state) {
                keys.insert(
                    physical_declaration_key(
                        world.places,
                        input_of(world, state.invocation),
                        definition_in(world, cell),
                    ),
                );
            }
        }
        let group = graph.roots.get(&state);
        if !is_selected || group.is_some() {
            let compiled = compiled_provenance(input_of(world, state.invocation).target);
            if let Some(class) = compiled {
                uses.insert(class);
            }
            let public = match group {
                Some(group) => has_public_evidence(group),
                None => {
                    proof {
                        assert(!requires_public(group_at(w.roots(), state)));
                    }
                    false
                },
            };
            if public {
                uses.insert(ImpactProvenanceClass::PublicInterface);
            }
        }
        proof {
            assert(uses.deep_view() =~= before.union(classes_of(visit)));
        }
        at = at + 1;
    }
    proof {
        assert(visited.take(visited.len() as int) =~= visited);
    }
    UseFacts { keys, classes: uses }
}

/// Adds the classes of the witnesses.
fn add_witness_classes(
    classes: &mut SortedSet<ImpactProvenanceClass>,
    witnesses: &Vec<ImpactWitnessReport>,
)
    requires
        old(classes).wf(),
    ensures
        final(classes).wf(),
        final(classes).deep_view() == old(classes).deep_view().union(
            image(
                witnesses.deep_view(),
                |witness: ImpactWitnessReportView| Some(witness.provenance.class),
            ),
        ),
{
    let ghost before = classes.deep_view();
    let ghost shown = witnesses.deep_view();
    let ghost class_of = |witness: ImpactWitnessReportView| Some(witness.provenance.class);
    let mut next: usize = 0;
    proof {
        lemma_image_ends(shown, class_of);
        assert(before.union(image(shown.take(0), class_of)) =~= before);
    }
    while next < witnesses.len()
        invariant
            classes.wf(),
            shown == witnesses.deep_view(),
            class_of == |witness: ImpactWitnessReportView| Some(witness.provenance.class),
            next <= shown.len(),
            classes.deep_view() == before.union(image(shown.take(next as int), class_of)),
        decreases shown.len() - next,
    {
        proof {
            lemma_image_step(shown, class_of, next as int);
            assert(shown[next as int] == witnesses[next as int].deep_view());
        }
        classes.insert(witnesses[next].provenance.class);
        proof {
            assert(classes.deep_view() =~= before.union(image(shown.take(next + 1), class_of)));
        }
        next = next + 1;
    }
    proof {
        lemma_image_ends(shown, class_of);
    }
}

/// Finds out whether the selected nodes have to be public.
fn visibility_disposition(
    world: &World<'_>,
    graph: &Graph,
    nodes: &SortedSet<usize>,
    production: &SortedSet<usize>,
    nonproduction: &SortedSet<usize>,
    candidates: &SortedMap<usize, (usize, usize)>,
) -> (disposition: ImpactVisibilityDisposition)
    requires
        graph.describes(world.deep_view()),
        nodes.wf(),
        production.wf(),
        nonproduction.wf(),
        candidates.wf(),
        production.deep_view() == world.deep_view().production_live(),
        nonproduction.deep_view() == world.deep_view().nonproduction_live(),
        candidates.deep_view() == world.deep_view().candidates(),
    ensures
        disposition == world.deep_view().disposition(nodes.deep_view()),
{
    let ghost w = world.deep_view();
    let shared = physical_visibility_nodes(world, graph, nodes);
    let ghost group = shared.deep_view();
    let ghost s = shared.seq();
    let mut required = false;
    let mut candidate = false;
    let mut live = false;
    let mut node_at: usize = 0;
    while node_at < shared.len()
        invariant
            graph.describes(w),
            shared.wf(),
            s == shared.seq(),
            production.wf(),
            nonproduction.wf(),
            candidates.wf(),
            production.deep_view() == w.production_live(),
            nonproduction.deep_view() == w.nonproduction_live(),
            candidates.deep_view() == w.candidates(),
            node_at <= s.len(),
            required == exists|i: int|
                0 <= i < node_at && w.required_nodes().contains_key(#[trigger] s[i]),
            candidate == exists|i: int|
                0 <= i < node_at && w.candidates().contains_key(#[trigger] s[i]),
            live == exists|i: int|
                0 <= i < node_at && (w.production_live().contains(#[trigger] s[i])
                    || w.nonproduction_live().contains(s[i])),
        decreases s.len() - node_at,
    {
        let node: usize = *shared.get(node_at);
        proof {
            assert(s[node_at as int] == node);
        }
        required = required || graph.required_reasons.contains_key(&node);
        candidate = candidate || candidates.contains_key(&node);
        live = live || production.contains(&node) || nonproduction.contains(&node);
        node_at = node_at + 1;
    }
    proof {
        assert forall|i: int| 0 <= i < s.len() implies group.contains(#[trigger] s[i]) by {
            assert(s.contains(s[i]));
        }
        assert(required == exists|node: usize| #[trigger]
            group.contains(node) && w.required_nodes().contains_key(node));
        assert(candidate == exists|node: usize| #[trigger]
            group.contains(node) && w.candidates().contains_key(node));
        assert(live == exists|node: usize| #[trigger]
            group.contains(node) && (w.production_live().contains(node)
                || w.nonproduction_live().contains(node)));
    }
    if required {
        ImpactVisibilityDisposition::RequiredPublic
    } else if candidate {
        if live {
            ImpactVisibilityDisposition::NarrowablePublic
        } else {
            ImpactVisibilityDisposition::DeadPublic
        }
    } else {
        ImpactVisibilityDisposition::NotPublicCandidate
    }
}

/// Reports the impact of the one declaration that a query selects.
fn selected_impact(
    world: &World<'_>,
    graph: &Graph,
    query: &ImpactQuery,
    nodes: &SortedSet<usize>,
    production: &SortedSet<usize>,
    nonproduction: &SortedSet<usize>,
    candidates: &SortedMap<usize, (usize, usize)>,
) -> (report: ImpactReport)
    requires
        graph.describes(world.deep_view()),
        nodes.wf(),
        production.wf(),
        nonproduction.wf(),
        candidates.wf(),
        production.deep_view() == world.deep_view().production_live(),
        nonproduction.deep_view() == world.deep_view().nonproduction_live(),
        candidates.deep_view() == world.deep_view().candidates(),
    ensures
        report.deep_view() == selected_impact_of(
            world.deep_view(),
            query.deep_view(),
            nodes.deep_view(),
        ),
{
    let selected = states_for_nodes(world, graph, nodes);
    let definition = match representative_for_nodes(world, graph, nodes, query) {
        Some(cell) => Some(
            impact_definition_report(
                world.places,
                input_of(world, cell.0),
                definition_in(world, cell),
            ),
        ),
        None => None,
    };
    let direct_references = direct_uses(world, graph, &selected);
    let found = reverse_reachable(&selected, &graph.reference_edges);
    let witnesses = impact_witnesses(world, graph, &selected, &found);
    let facts = collect_uses(world, graph, nodes, &selected, &found);
    let UseFacts { keys, classes } = facts;
    let mut uses = classes;
    add_witness_classes(&mut uses, &witnesses);
    let disposition = visibility_disposition(
        world,
        graph,
        nodes,
        production,
        nonproduction,
        candidates,
    );
    proof {
        keys.lemma_seq();
        assert(direct_references.len() == direct_references.deep_view().len());
    }
    let none: Vec<ImpactDefinitionReport> = no_items();
    ImpactReport {
        status: SemanticStatus::Complete,
        reason: None,
        scope: "selected-workspace compiled-target closed world".to_owned(),
        evidence_exclusions: evidence_exclusions(),
        query: impact_query_report(query),
        candidates: none,
        selected: definition,
        visibility_disposition: Some(disposition),
        summary: Some(
            ImpactSummaryReport {
                direct_reference_relationships: direct_references.len() as u64,
                transitive_consumers: keys.len() as u64,
                production: uses.contains(&ImpactProvenanceClass::Production),
                nonproduction: uses.contains(&ImpactProvenanceClass::Nonproduction),
                build_time: uses.contains(&ImpactProvenanceClass::BuildTime),
                public_interface: uses.contains(&ImpactProvenanceClass::PublicInterface),
            },
        ),
        direct_references,
        witnesses,
        reference_site_note:
            "Reference spans are representative reference sites, not exhaustive call sites.".to_owned(),
    }
}

/// Reports who uses the definition that a query asks about.
pub fn impact_report(
    world: &World<'_>,
    graph: &Graph,
    query: &ImpactQuery,
    production: &SortedSet<usize>,
    nonproduction: &SortedSet<usize>,
    candidates: &SortedMap<usize, (usize, usize)>,
) -> (report: ImpactReport)
    requires
        graph.describes(world.deep_view()),
        production.wf(),
        nonproduction.wf(),
        candidates.wf(),
        production.deep_view() == world.deep_view().production_live(),
        nonproduction.deep_view() == world.deep_view().nonproduction_live(),
        candidates.deep_view() == world.deep_view().candidates(),
    ensures
        report.deep_view() == impact_report_of(world.deep_view(), query.deep_view()),
{
    let ghost w = world.deep_view();
    let ghost q = query.deep_view();
    let matches = matching_physical_declarations(world, graph, query);
    let ghost names = matches.key_seq();
    let ghost f = w.asked_report(q);
    let mut reports: Vec<ImpactDefinitionReport> = no_items();
    let mut index: usize = 0;
    proof {
        matches.lemma_places();
        assert(names.take(0) =~= Seq::<PhysicalDeclarationKeyView>::empty());
    }
    while index < matches.len()
        invariant
            w == world.deep_view(),
            q == query.deep_view(),
            graph.describes(w),
            matches.wf(),
            matches.deep_view() == w.asked(q),
            names == matches.key_seq(),
            f == w.asked_report(q),
            index <= names.len(),
            reports.deep_view() == collected(names.take(index as int), f),
        decreases names.len() - index,
    {
        proof {
            lemma_collected_step(names, f, index as int);
        }
        if let Some(cell) = representative_for_nodes(world, graph, matches.group(index), query) {
            push_item(
                &mut reports,
                impact_definition_report(
                    world.places,
                    input_of(world, cell.0),
                    definition_in(world, cell),
                ),
            );
        }
        index = index + 1;
    }
    proof {
        assert(names.take(names.len() as int) =~= names);
    }
    if matches.len() == 0 {
        return unavailable_impact(
            query,
            "no compiled definition exactly matched the requested package, definition path, and optional source location",
            reports,
        );
    }
    if matches.len() != 1 {
        return unavailable_impact(
            query,
            "the query matched multiple physical declarations; add an exact source path, line, and column",
            reports,
        );
    }
    selected_impact(
        world,
        graph,
        query,
        matches.group(0),
        production,
        nonproduction,
        candidates,
    )
}

/// A chain of uses has a step for each edge on the way.
proof fn lemma_chain_length(world: WorldView, visited: Seq<Visit>, index: int)
    ensures
        world.chain(visited, index) matches Some(steps) ==> steps.len() == distance(visited, index),
    decreases index,
{
    if let Some(edge) = visited[index].edge {
        let next = place_in(visited, edge.to);
        if 0 <= next < index {
            lemma_chain_length(world, visited, next);
        }
    }
}

/// The chain of uses that shows how a state leads to a selected one is as short as any walk.
pub proof fn law_chains_of_uses_are_shortest(
    world: WorldView,
    selected: Set<GraphState>,
    edges: Set<ReferenceEdge>,
    walk: Seq<GraphState>,
)
    requires
        selected.finite(),
        edges.finite(),
        is_walk(backwards(edges), walk),
        selected.contains(walk[0]),
    ensures
        world.chain(
            consumers(selected, edges),
            place_in(consumers(selected, edges), walk.last()),
        ) matches Some(steps) ==> steps.len() <= walk.len() - 1,
{
    let visited = consumers(selected, edges);
    law_searches_find_shortest_ways(selected, edges, walk);
    lemma_chain_length(world, visited, place_in(visited, walk.last()));
}

} // verus!
