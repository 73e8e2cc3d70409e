//! Declarations as they are written down, and the definitions that stand for them.

use vstd::prelude::*;

use crate::collections::{
    collected, grouped, image, least, lemma_cells, lemma_collected_step, lemma_grouped_ends,
    lemma_grouped_step, lemma_image_ends, lemma_image_step, lemma_least_step, list_cells, no_items,
    push_item, Groups, SortedSet,
};
use crate::compiler::closed_world::{lemma_nodes_fit, nodes_fit, optional_span, source_span};
use crate::compiler::graph::{
    is_nonproduction_role, logical_target, logical_target_of, nonproduction_role,
    optional_identity, span_identity, Graph, GraphInvocation, GraphInvocationView, Locations,
    LocationsView, World, WorldView,
};
use crate::compiler::graph_keys::{
    GraphState, LogicalDeclaration, LogicalDeclarationView, PhysicalDeclarationKey,
    PhysicalDeclarationKeyView, ReferenceEdge, SpannedDeclaration, SpannedDeclarationView,
};
use crate::compiler::labels::{
    definition_kind, expansion_origin, kind_name, origin_name, reference_kind, reference_name,
};
use crate::model::{
    CompilerTargetReport, CompilerTargetReportView, ImpactDefinitionReport,
    ImpactDefinitionReportView, ImpactProvenanceClass, ImpactProvenanceReport,
    ImpactProvenanceReportView, ImpactReferenceReport, ImpactReferenceReportView,
    ImpactReferenceStepReport, ImpactReferenceStepReportView, ImpactWitnessReport,
    ImpactWitnessReportView,
};
use crate::order::{Ordered, Rank};
use crate::paths::{portable, portable_path};
use crate::protocol::{
    CompilerDefId, Definition, DefinitionKind, DefinitionView, Reference, SourceSpanView,
};
use crate::text::{fixed_digits, fixed_text, join, joined, same};

verus! {

/// A place that a query narrows a definition down to.
#[derive(Debug, PartialEq, Eq)]
pub struct ImpactLocationQuery {
    pub path: String,
    pub line: u64,
    pub column: u64,
}

/// The model of [`ImpactLocationQuery`].
#[verifier::ext_equal]
pub struct ImpactLocationQueryView {
    pub path: Seq<char>,
    pub line: u64,
    pub column: u64,
}

impl DeepView for ImpactLocationQuery {
    type V = ImpactLocationQueryView;

    open spec fn deep_view(&self) -> ImpactLocationQueryView {
        ImpactLocationQueryView {
            path: self.path.deep_view(),
            line: self.line,
            column: self.column,
        }
    }
}

impl Clone for ImpactLocationQuery {
    fn clone(&self) -> (copy: Self)
        ensures
            copy.deep_view() == self.deep_view(),
    {
        let copy = ImpactLocationQuery {
            path: self.path.clone(),
            line: self.line,
            column: self.column,
        };
        copy
    }
}

/// The definition that an impact report is asked about.
#[derive(Debug, PartialEq, Eq)]
pub struct ImpactQuery {
    pub package: String,
    pub definition_path: String,
    pub location: Option<ImpactLocationQuery>,
}

/// The model of [`ImpactQuery`].
#[verifier::ext_equal]
pub struct ImpactQueryView {
    pub package: Seq<char>,
    pub definition_path: Seq<char>,
    pub location: Option<ImpactLocationQueryView>,
}

impl DeepView for ImpactQuery {
    type V = ImpactQueryView;

    open spec fn deep_view(&self) -> ImpactQueryView {
        ImpactQueryView {
            package: self.package.deep_view(),
            definition_path: self.definition_path.deep_view(),
            location: self.location.deep_view(),
        }
    }
}

impl Clone for ImpactQuery {
    fn clone(&self) -> (copy: Self)
        ensures
            copy.deep_view() == self.deep_view(),
    {
        let copy = ImpactQuery {
            package: self.package.clone(),
            definition_path: self.definition_path.clone(),
            location: self.location.clone(),
        };
        proof {
            assert(copy.location.deep_view() =~= self.location.deep_view());
        }
        copy
    }
}

/// The span of a definition, or else the place that it is attributed to.
pub open spec fn span_or_callsite(definition: DefinitionView) -> Option<SourceSpanView> {
    match definition.span {
        Some(span) => Some(span),
        None => definition.attribution_callsite,
    }
}

/// What identifies a definition as it is written down.
pub open spec fn physical_key_of(
    places: LocationsView,
    input: GraphInvocationView,
    definition: DefinitionView,
) -> PhysicalDeclarationKeyView {
    match optional_identity(places, input.invocation.sources, span_or_callsite(definition)) {
        Some(span) => PhysicalDeclarationKeyView::Spanned(
            SpannedDeclarationView {
                package_id: input.target.package_id,
                definition_path: definition.definition_path,
                span,
            },
        ),
        None => PhysicalDeclarationKeyView::Logical(
            LogicalDeclarationView {
                package_id: input.target.package_id,
                target: logical_target_of(places, input.target),
                definition_path: definition.definition_path,
            },
        ),
    }
}

/// Identifies a definition as it is written down.
pub fn physical_declaration_key(
    places: &Locations,
    input: &GraphInvocation<'_>,
    definition: &Definition,
) -> (key: PhysicalDeclarationKey)
    ensures
        key.deep_view() == physical_key_of(
            places.deep_view(),
            input.deep_view(),
            definition.deep_view(),
        ),
{
    let identity = match &definition.span {
        Some(span) => span_identity(places, input.invocation, span),
        None => match &definition.attribution_callsite {
            Some(span) => span_identity(places, input.invocation, span),
            None => None,
        },
    };
    match identity {
        Some(span) => PhysicalDeclarationKey::Spanned(
            SpannedDeclaration {
                package_id: input.target.package_id.clone(),
                definition_path: definition.definition_path.clone(),
                span,
            },
        ),
        None => PhysicalDeclarationKey::Logical(
            LogicalDeclaration {
                package_id: input.target.package_id.clone(),
                target: logical_target(places, input.target),
                definition_path: definition.definition_path.clone(),
            },
        ),
    }
}

/// Whether a definition lies at the place that a query names.
pub open spec fn at_location(
    places: LocationsView,
    input: GraphInvocationView,
    definition: DefinitionView,
    location: ImpactLocationQueryView,
) -> bool {
    match optional_span(places, input, span_or_callsite(definition)) {
        Some(span) => portable_path(span.path) == portable_path(location.path) && span.line
            == location.line && span.column == location.column,
        None => false,
    }
}

/// Whether a definition is one that a query asks about.
pub open spec fn answers(
    places: LocationsView,
    input: GraphInvocationView,
    definition: DefinitionView,
    query: ImpactQueryView,
) -> bool {
    &&& input.owner == query.package
    &&& definition.definition_path == query.definition_path
    &&& match query.location {
        Some(location) => at_location(places, input, definition, location),
        None => true,
    }
}

/// Whether a definition is one that a query asks about.
pub fn matches_query(
    places: &Locations,
    input: &GraphInvocation<'_>,
    definition: &Definition,
    query: &ImpactQuery,
) -> (result: bool)
    ensures
        result == answers(
            places.deep_view(),
            input.deep_view(),
            definition.deep_view(),
            query.deep_view(),
        ),
{
    if !same(input.owner, query.package.as_str()) || !same(
        definition.definition_path.as_str(),
        query.definition_path.as_str(),
    ) {
        return false;
    }
    match &query.location {
        None => true,
        Some(location) => {
            let span = match &definition.span {
                Some(_) => source_span(places, input, &definition.span),
                None => source_span(places, input, &definition.attribution_callsite),
            };
            match span {
                None => false,
                Some(span) => {
                    let found = portable(span.path.as_str());
                    let wanted = portable(location.path.as_str());
                    same(found.as_str(), wanted.as_str()) && span.line == location.line
                        && span.column == location.column
                },
            }
        },
    }
}

impl WorldView {
    /// The definition of a node at a place of the list of all of them.
    pub open spec fn member(self, place: (usize, usize)) -> (usize, usize) {
        self.nodes()[place.0 as int][place.1 as int]
    }

    /// What identifies a definition as it is written down.
    pub open spec fn physical_key(self, cell: (usize, usize)) -> PhysicalDeclarationKeyView {
        physical_key_of(self.places, self.input(cell), self.definition(cell))
    }

    /// The declaration of a definition that a query asks about.
    pub open spec fn asked_key(self, query: ImpactQueryView) -> spec_fn((usize, usize)) -> Option<
        PhysicalDeclarationKeyView,
    > {
        |place: (usize, usize)|
            if answers(
                self.places,
                self.input(self.member(place)),
                self.definition(self.member(place)),
                query,
            ) {
                Some(self.physical_key(self.member(place)))
            } else {
                None
            }
    }

    /// The declarations that a query asks about.
    pub open spec fn asked_keys(self, query: ImpactQueryView) -> Set<PhysicalDeclarationKeyView> {
        image(self.member_cells(), self.asked_key(query))
    }

    /// The node of a definition, where its declaration is one of some.
    pub open spec fn asked_node(self, keys: Set<PhysicalDeclarationKeyView>) -> spec_fn(
        (usize, usize),
    ) -> Option<(PhysicalDeclarationKeyView, usize)> {
        |place: (usize, usize)|
            if keys.contains(self.physical_key(self.member(place))) {
                Some((self.physical_key(self.member(place)), place.0))
            } else {
                None
            }
    }

    /// The declarations that a query asks about, each with its nodes.
    pub open spec fn asked(self, query: ImpactQueryView) -> Map<
        PhysicalDeclarationKeyView,
        Set<usize>,
    > {
        grouped(self.member_cells(), self.asked_node(self.asked_keys(query)))
    }

    /// The states in which invocations see some nodes.
    pub open spec fn states_of_nodes(self, nodes: Set<usize>) -> Set<GraphState> {
        image(
            self.member_cells(),
            |place: (usize, usize)|
                if nodes.contains(place.0) {
                    Some(GraphState { invocation: self.member(place).0, node: place.0 })
                } else {
                    None
                },
        )
    }

    /// By what a definition is chosen to stand for others.
    pub open spec fn representative_key(self, query: ImpactQueryView) -> spec_fn(
        (usize, usize),
    ) -> (
        bool,
        (
            bool,
            (Seq<char>, (Seq<char>, (Seq<char>, (DefinitionKind, CompilerDefId)))),
        ),
    ) {
        |cell: (usize, usize)|
            (
                self.input(cell).target.role != "production"@,
                (
                    self.definition(cell).definition_path != query.definition_path,
                    (
                        self.input(cell).target.package_id,
                        (
                            self.input(cell).target.name,
                            (
                                self.definition(cell).definition_path,
                                (self.definition(cell).kind, self.definition(cell).compiler_id),
                            ),
                        ),
                    ),
                ),
            )
    }

    /// Whether a definition stands for others before another one.
    pub open spec fn stands_before(self, query: ImpactQueryView) -> spec_fn(
        (usize, usize),
        (usize, usize),
    ) -> bool {
        |a: (usize, usize), b: (usize, usize)|
            <RepresentativeKey as Ordered>::precedes(
                self.representative_key(query)(a),
                self.representative_key(query)(b),
            )
    }

    /// Picks the definitions of some nodes.
    pub open spec fn member_within(self, nodes: Set<usize>) -> spec_fn((usize, usize)) -> Option<
        (usize, usize),
    > {
        |place: (usize, usize)|
            if nodes.contains(place.0) {
                Some(self.member(place))
            } else {
                None
            }
    }

    /// The definition that stands for some nodes.
    pub open spec fn representative_of_nodes(
        self,
        nodes: Set<usize>,
        query: ImpactQueryView,
    ) -> Option<(usize, usize)> {
        least(
            collected(self.member_cells(), self.member_within(nodes)),
            self.stands_before(query),
        )
    }

    /// The definitions of a state.
    pub open spec fn state_members(self, state: GraphState) -> Seq<(usize, usize)> {
        collected(
            self.nodes()[state.node as int],
            |cell: (usize, usize)|
                if cell.0 == state.invocation {
                    Some(cell)
                } else {
                    None
                },
        )
    }

    /// Whether a definition stands for its state before another one.
    pub open spec fn names_before(self) -> spec_fn((usize, usize), (usize, usize)) -> bool {
        |a: (usize, usize), b: (usize, usize)|
            <(String, (DefinitionKind, CompilerDefId)) as Ordered>::precedes(
                self.name_key(a),
                self.name_key(b),
            )
    }

    /// By what a definition is chosen to stand for its state.
    pub open spec fn name_key(self, cell: (usize, usize)) -> (
        Seq<char>,
        (DefinitionKind, CompilerDefId),
    ) {
        (
            self.definition(cell).definition_path,
            (self.definition(cell).kind, self.definition(cell).compiler_id),
        )
    }

    /// The definition that stands for a state.
    pub open spec fn definition_of_state(self, state: GraphState) -> Option<(usize, usize)> {
        if state.node >= self.nodes().len() {
            None
        } else {
            least(self.state_members(state), self.names_before())
        }
    }

    /// The definition that a compiler identity names in an invocation, else that of a state.
    pub open spec fn named_or_state(
        self,
        invocation: usize,
        id: CompilerDefId,
        state: GraphState,
    ) -> Option<(usize, usize)> {
        let definitions = self.invocations[invocation as int].invocation.definitions;
        let place = place_of_id(definitions, id, 0);
        if place < definitions.len() {
            Some((invocation, place as usize))
        } else {
            self.definition_of_state(state)
        }
    }
}

/// By what a definition is chosen to stand for others.
pub type RepresentativeKey = (
    bool,
    (bool, (String, (String, (String, (DefinitionKind, CompilerDefId))))),
);

/// The place of the first definition with an identity at or behind a place.
pub open spec fn place_of_id(definitions: Seq<DefinitionView>, id: CompilerDefId, from: int) -> int
    decreases definitions.len() - from,
{
    if from >= definitions.len() {
        definitions.len() as int
    } else if definitions[from].compiler_id == id {
        from
    } else {
        place_of_id(definitions, id, from + 1)
    }
}

fn find_id(definitions: &Vec<Definition>, id: CompilerDefId) -> (place: usize)
    ensures
        place == place_of_id(definitions.deep_view(), id, 0),
        place <= definitions.len(),
{
    let ghost all = definitions.deep_view();
    let mut place: usize = 0;
    while place < definitions.len()
        invariant
            all == definitions.deep_view(),
            place <= definitions.len(),
            place_of_id(all, id, 0) == place_of_id(all, id, place as int),
        decreases definitions.len() - place,
    {
        proof {
            assert(all[place as int] == definitions[place as int].deep_view());
        }
        if definitions[place].compiler_id == id {
            return place;
        }
        place = place + 1;
    }
    place
}

/// The places of the definitions of all nodes, node by node.
pub fn member_list(world: &World<'_>, graph: &Graph) -> (list: Vec<(usize, usize)>)
    requires
        graph.describes(world.deep_view()),
    ensures
        list@ == world.deep_view().member_cells(),
        forall|k: int|
            0 <= k < list@.len() ==> (#[trigger] list@[k]).0 < world.deep_view().nodes().len()
                && list@[k].1 < world.deep_view().nodes()[list@[k].0 as int].len(),
{
    let ghost w = world.deep_view();
    let mut counts: Vec<usize> = Vec::new();
    let ghost lengths = Seq::new(w.nodes().len(), |n: int| w.nodes()[n].len() as usize);
    let mut node: usize = 0;
    while node < graph.nodes.len()
        invariant
            graph.nodes.deep_view() == w.nodes(),
            lengths == Seq::new(w.nodes().len(), |n: int| w.nodes()[n].len() as usize),
            node <= graph.nodes.len(),
            counts@ =~= lengths.take(node as int),
        decreases graph.nodes.len() - node,
    {
        proof {
            assert(w.nodes()[node as int] == graph.nodes[node as int].deep_view());
            assert(graph.nodes[node as int].len() == w.nodes()[node as int].len());
        }
        counts.push(graph.nodes[node].len());
        node = node + 1;
    }
    proof {
        assert(counts@ =~= lengths);
        lemma_cells(lengths);
        assert forall|n: int| 0 <= n < w.nodes().len() implies (#[trigger] w.nodes()[n]).len()
            == lengths[n] by {
            assert(w.nodes()[n] == graph.nodes[n].deep_view());
            assert(graph.nodes[n].len() == w.nodes()[n].len());
        }
    }
    list_cells(&counts)
}

/// The definition of a node at a place of the list of all of them.
pub fn member_at(world: &World<'_>, graph: &Graph, place: (usize, usize)) -> (cell: (usize, usize))
    requires
        graph.describes(world.deep_view()),
        nodes_fit(world.deep_view()),
        place.0 < world.deep_view().nodes().len(),
        place.1 < world.deep_view().nodes()[place.0 as int].len(),
    ensures
        cell == world.deep_view().member(place),
        cell.0 < world.deep_view().invocations.len(),
        cell.1 < world.deep_view().input(cell).invocation.definitions.len(),
{
    let ghost w = world.deep_view();
    proof {
        assert(w.nodes()[place.0 as int] == graph.nodes[place.0 as int].deep_view());
        assert(graph.nodes[place.0 as int].len() == w.nodes()[place.0 as int].len());
        assert(w.nodes()[place.0 as int][place.1 as int].0 < w.invocations.len());
    }
    graph.nodes[place.0][place.1]
}

/// A definition of the world.
pub fn definition_in<'a>(world: &World<'a>, cell: (usize, usize)) -> (definition: &'a Definition)
    requires
        cell.0 < world.deep_view().invocations.len(),
        cell.1 < world.deep_view().input(cell).invocation.definitions.len(),
    ensures
        definition.deep_view() == world.deep_view().definition(cell),
{
    proof {
        assert(world.deep_view().invocations[cell.0 as int]
            == world.invocations[cell.0 as int].deep_view());
    }
    &world.invocations[cell.0].invocation.definitions[cell.1]
}

/// An invocation of the world.
pub fn input_of<'a, 'b>(world: &'b World<'a>, index: usize) -> (input: &'b GraphInvocation<'a>)
    requires
        index < world.deep_view().invocations.len(),
    ensures
        input.deep_view() == world.deep_view().invocations[index as int],
{
    proof {
        assert(world.deep_view().invocations[index as int]
            == world.invocations[index as int].deep_view());
    }
    &world.invocations[index]
}

/// Finds the declarations that a query asks about, each with its nodes.
pub fn matching_physical_declarations(
    world: &World<'_>,
    graph: &Graph,
    query: &ImpactQuery,
) -> (matches: Groups<PhysicalDeclarationKey, usize>)
    requires
        graph.describes(world.deep_view()),
    ensures
        matches.wf(),
        matches.deep_view() == world.deep_view().asked(query.deep_view()),
{
    let ghost w = world.deep_view();
    let ghost q = query.deep_view();
    let list = member_list(world, graph);
    let ghost all = w.member_cells();
    let mut keys: SortedSet<PhysicalDeclarationKey> = SortedSet::new();
    let mut index: usize = 0;
    proof {
        lemma_nodes_fit(world);
        lemma_image_ends(all, w.asked_key(q));
    }
    while index < list.len()
        invariant
            w == world.deep_view(),
            q == query.deep_view(),
            graph.describes(w),
            nodes_fit(w),
            all == w.member_cells(),
            list@ == all,
            forall|k: int|
                0 <= k < list@.len() ==> (#[trigger] list@[k]).0 < w.nodes().len() && list@[k].1
                    < w.nodes()[list@[k].0 as int].len(),
            index <= list.len(),
            keys.wf(),
            keys.deep_view() == image(all.take(index as int), w.asked_key(q)),
        decreases list.len() - index,
    {
        proof {
            lemma_image_step(all, w.asked_key(q), index as int);
        }
        let cell = member_at(world, graph, list[index]);
        let input = input_of(world, cell.0);
        let definition = definition_in(world, cell);
        if matches_query(world.places, input, definition, query) {
            keys.insert(physical_declaration_key(world.places, input, definition));
        }
        index = index + 1;
    }
    let ghost asked = w.asked_keys(q);
    let mut matches: Groups<PhysicalDeclarationKey, usize> = Groups::new();
    let mut done: usize = 0;
    proof {
        lemma_image_ends(all, w.asked_key(q));
        lemma_grouped_ends(all, w.asked_node(asked));
    }
    while done < list.len()
        invariant
            w == world.deep_view(),
            graph.describes(w),
            nodes_fit(w),
            all == w.member_cells(),
            list@ == all,
            forall|k: int|
                0 <= k < list@.len() ==> (#[trigger] list@[k]).0 < w.nodes().len() && list@[k].1
                    < w.nodes()[list@[k].0 as int].len(),
            done <= list.len(),
            keys.wf(),
            keys.deep_view() == asked,
            matches.wf(),
            matches.deep_view() == grouped(all.take(done as int), w.asked_node(asked)),
        decreases list.len() - done,
    {
        proof {
            lemma_grouped_step(all, w.asked_node(asked), done as int);
        }
        let place = list[done];
        let cell = member_at(world, graph, place);
        let key = physical_declaration_key(
            world.places,
            input_of(world, cell.0),
            definition_in(world, cell),
        );
        if keys.contains(&key) {
            matches.add(key, place.0);
        }
        done = done + 1;
    }
    proof {
        lemma_grouped_ends(all, w.asked_node(asked));
    }
    matches
}

/// The states in which invocations see some nodes.
pub fn states_for_nodes(world: &World<'_>, graph: &Graph, nodes: &SortedSet<usize>) -> (states:
    SortedSet<GraphState>)
    requires
        graph.describes(world.deep_view()),
        nodes.wf(),
    ensures
        states.wf(),
        states.deep_view() == world.deep_view().states_of_nodes(nodes.deep_view()),
{
    let ghost w = world.deep_view();
    let ghost some = nodes.deep_view();
    let list = member_list(world, graph);
    let ghost all = w.member_cells();
    let ghost f = |place: (usize, usize)|
        if some.contains(place.0) {
            Some(GraphState { invocation: w.member(place).0, node: place.0 })
        } else {
            None
        };
    let mut states: SortedSet<GraphState> = SortedSet::new();
    let mut index: usize = 0;
    proof {
        lemma_nodes_fit(world);
        lemma_image_ends(all, f);
    }
    while index < list.len()
        invariant
            w == world.deep_view(),
            some == nodes.deep_view(),
            graph.describes(w),
            nodes_fit(w),
            nodes.wf(),
            all == w.member_cells(),
            list@ == all,
            f == |place: (usize, usize)|
                if some.contains(place.0) {
                    Some(GraphState { invocation: w.member(place).0, node: place.0 })
                } else {
                    None
                },
            forall|k: int|
                0 <= k < list@.len() ==> (#[trigger] list@[k]).0 < w.nodes().len() && list@[k].1
                    < w.nodes()[list@[k].0 as int].len(),
            index <= list.len(),
            states.wf(),
            states.deep_view() == image(all.take(index as int), f),
        decreases list.len() - index,
    {
        proof {
            lemma_image_step(all, f, index as int);
        }
        let place = list[index];
        if nodes.contains(&place.0) {
            let cell = member_at(world, graph, place);
            states.insert(GraphState { invocation: cell.0, node: place.0 });
        }
        index = index + 1;
    }
    proof {
        lemma_image_ends(all, f);
    }
    states
}

fn representative_key(world: &World<'_>, query: &ImpactQuery, cell: (usize, usize)) -> (key:
    RepresentativeKey)
    requires
        cell.0 < world.deep_view().invocations.len(),
        cell.1 < world.deep_view().input(cell).invocation.definitions.len(),
    ensures
        key.deep_view() == world.deep_view().representative_key(query.deep_view())(cell),
{
    let input = input_of(world, cell.0);
    let definition = definition_in(world, cell);
    (
        !same(input.target.role.as_str(), "production"),
        (
            !same(definition.definition_path.as_str(), query.definition_path.as_str()),
            (
                input.target.package_id.clone(),
                (
                    input.target.name.clone(),
                    (
                        definition.definition_path.clone(),
                        (definition.kind, definition.compiler_id),
                    ),
                ),
            ),
        ),
    )
}

/// Finds the definition that stands for some nodes.
pub fn representative_for_nodes(
    world: &World<'_>,
    graph: &Graph,
    nodes: &SortedSet<usize>,
    query: &ImpactQuery,
) -> (best: Option<(usize, usize)>)
    requires
        graph.describes(world.deep_view()),
        nodes.wf(),
    ensures
        best == world.deep_view().representative_of_nodes(nodes.deep_view(), query.deep_view()),
        best matches Some(cell) ==> cell.0 < world.deep_view().invocations.len() && cell.1
            < world.deep_view().input(cell).invocation.definitions.len(),
{
    let ghost w = world.deep_view();
    let ghost q = query.deep_view();
    let ghost some = nodes.deep_view();
    let list = member_list(world, graph);
    let ghost all = w.member_cells();
    let ghost pick = w.member_within(some);
    let ghost before = w.stands_before(q);
    let mut best: Option<(usize, usize)> = None;
    let mut index: usize = 0;
    proof {
        lemma_nodes_fit(world);
        assert(collected(all.take(0), pick) =~= Seq::<(usize, usize)>::empty());
    }
    while index < list.len()
        invariant
            w == world.deep_view(),
            q == query.deep_view(),
            some == nodes.deep_view(),
            graph.describes(w),
            nodes_fit(w),
            nodes.wf(),
            all == w.member_cells(),
            list@ == all,
            pick == w.member_within(some),
            before == w.stands_before(q),
            forall|k: int|
                0 <= k < list@.len() ==> (#[trigger] list@[k]).0 < w.nodes().len() && list@[k].1
                    < w.nodes()[list@[k].0 as int].len(),
            index <= list.len(),
            best == least(collected(all.take(index as int), pick), before),
            best matches Some(cell) ==> cell.0 < w.invocations.len() && cell.1 < w.input(
                cell,
            ).invocation.definitions.len(),
        decreases list.len() - index,
    {
        let place = list[index];
        let ghost sofar = collected(all.take(index as int), pick);
        proof {
            lemma_collected_step(all, pick, index as int);
        }
        if nodes.contains(&place.0) {
            let cell = member_at(world, graph, place);
            proof {
                let longer = sofar.push(cell);
                lemma_least_step(longer, before, sofar.len() as int);
                assert(longer.take(sofar.len() as int) =~= sofar);
                assert(longer.take(sofar.len() as int + 1) =~= longer);
            }
            match best {
                None => {
                    best = Some(cell);
                },
                Some(held) => {
                    let key = representative_key(world, query, cell);
                    let held_key = representative_key(world, query, held);
                    proof {
                        <RepresentativeKey as Ordered>::irreflexive(key.deep_view());
                        if <RepresentativeKey as Ordered>::precedes(key.deep_view(), held_key.deep_view())
                           
                                && <RepresentativeKey as Ordered>::precedes(held_key.deep_view(), key.deep_view()) {
                            <RepresentativeKey as Ordered>::transitive(
                                key.deep_view(),
                                held_key.deep_view(),
                                key.deep_view(),
                            );
                        }
                    }
                    match key.rank(&held_key) {
                        Rank::Less => {
                            best = Some(cell);
                        },
                        _ => {},
                    }
                },
            }
        }
        index = index + 1;
    }
    proof {
        assert(all.take(all.len() as int) =~= all);
    }
    best
}

/// Finds the definition that stands for a state.
pub fn definition_for_state(world: &World<'_>, graph: &Graph, state: GraphState) -> (best: Option<
    (usize, usize),
>)
    requires
        graph.describes(world.deep_view()),
    ensures
        best == world.deep_view().definition_of_state(state),
        best matches Some(cell) ==> cell.0 < world.deep_view().invocations.len() && cell.1
            < world.deep_view().input(cell).invocation.definitions.len(),
{
    let ghost w = world.deep_view();
    if state.node >= graph.nodes.len() {
        return None;
    }
    let members = &graph.nodes[state.node];
    let ghost all = w.nodes()[state.node as int];
    let ghost pick = |cell: (usize, usize)|
        if cell.0 == state.invocation {
            Some(cell)
        } else {
            None
        };
    let ghost before = w.names_before();
    let mut best: Option<(usize, usize)> = None;
    let mut index: usize = 0;
    proof {
        lemma_nodes_fit(world);
        assert(w.nodes()[state.node as int] == members.deep_view());
        assert(collected(all.take(0), pick) =~= Seq::<(usize, usize)>::empty());
    }
    while index < members.len()
        invariant
            w == world.deep_view(),
            nodes_fit(w),
            state.node < w.nodes().len(),
            all == w.nodes()[state.node as int],
            members.deep_view() == all,
            pick == |cell: (usize, usize)|
                if cell.0 == state.invocation {
                    Some(cell)
                } else {
                    None
                },
            before == w.names_before(),
            index <= all.len(),
            best == least(collected(all.take(index as int), pick), before),
            best matches Some(cell) ==> cell.0 < w.invocations.len() && cell.1 < w.input(
                cell,
            ).invocation.definitions.len(),
        decreases all.len() - index,
    {
        let cell: (usize, usize) = members[index];
        let ghost sofar = collected(all.take(index as int), pick);
        proof {
            assert(w.nodes()[state.node as int][index as int] == cell);
            lemma_collected_step(all, pick, index as int);
        }
        if cell.0 == state.invocation {
            proof {
                let longer = sofar.push(cell);
                lemma_least_step(longer, before, sofar.len() as int);
                assert(longer.take(sofar.len() as int) =~= sofar);
                assert(longer.take(sofar.len() as int + 1) =~= longer);
            }
            match best {
                None => {
                    best = Some(cell);
                },
                Some(held) => {
                    let a = definition_in(world, cell);
                    let b = definition_in(world, held);
                    let key: (String, (DefinitionKind, CompilerDefId)) = (
                        a.definition_path.clone(),
                        (a.kind, a.compiler_id),
                    );
                    let held_key: (String, (DefinitionKind, CompilerDefId)) = (
                        b.definition_path.clone(),
                        (b.kind, b.compiler_id),
                    );
                    proof {
                        let x = key.deep_view();
                        let y = held_key.deep_view();
                        <(String, (DefinitionKind, CompilerDefId)) as Ordered>::irreflexive(x);
                        if <(String, (DefinitionKind, CompilerDefId)) as Ordered>::precedes(x, y)
                            && <(String, (DefinitionKind, CompilerDefId)) as Ordered>::precedes(y, x) {
                            <(String, (DefinitionKind, CompilerDefId)) as Ordered>::transitive(
                                x,
                                y,
                                x,
                            );
                        }
                    }
                    match key.rank(&held_key) {
                        Rank::Less => {
                            best = Some(cell);
                        },
                        _ => {},
                    }
                },
            }
        }
        index = index + 1;
    }
    proof {
        assert(all.take(all.len() as int) =~= all);
    }
    best
}

fn named_or_state(
    world: &World<'_>,
    graph: &Graph,
    invocation: usize,
    id: CompilerDefId,
    state: GraphState,
) -> (found: Option<(usize, usize)>)
    requires
        graph.describes(world.deep_view()),
        invocation < world.deep_view().invocations.len(),
    ensures
        found == world.deep_view().named_or_state(invocation, id, state),
        found matches Some(cell) ==> cell.0 < world.deep_view().invocations.len() && cell.1
            < world.deep_view().input(cell).invocation.definitions.len(),
{
    let input = input_of(world, invocation);
    let place = find_id(&input.invocation.definitions, id);
    if place < input.invocation.definitions.len() {
        Some((invocation, place))
    } else {
        definition_for_state(world, graph, state)
    }
}

/// The report on a definition.
pub open spec fn impact_definition_of(
    places: LocationsView,
    input: GraphInvocationView,
    definition: DefinitionView,
) -> ImpactDefinitionReportView {
    ImpactDefinitionReportView {
        package_id: input.target.package_id,
        package_name: input.owner,
        crate_name: input.crate_name,
        target_name: input.target.name,
        definition_path: definition.definition_path,
        definition_kind: kind_name(definition.kind),
        expansion_origin: origin_name(definition.expansion_origin),
        span: optional_span(places, input, definition.span),
        attribution_callsite: optional_span(places, input, definition.attribution_callsite),
    }
}

/// Reports a definition.
pub fn impact_definition_report(
    places: &Locations,
    input: &GraphInvocation<'_>,
    definition: &Definition,
) -> (report: ImpactDefinitionReport)
    ensures
        report.deep_view() == impact_definition_of(
            places.deep_view(),
            input.deep_view(),
            definition.deep_view(),
        ),
{
    ImpactDefinitionReport {
        package_id: input.target.package_id.clone(),
        package_name: input.owner.to_owned(),
        crate_name: input.crate_name.to_owned(),
        target_name: input.target.name.clone(),
        definition_path: definition.definition_path.clone(),
        definition_kind: definition_kind(definition.kind).to_owned(),
        expansion_origin: expansion_origin(definition.expansion_origin).to_owned(),
        span: source_span(places, input, &definition.span),
        attribution_callsite: source_span(places, input, &definition.attribution_callsite),
    }
}

/// The target whose code uses a definition.
pub open spec fn provenance_of(
    input: GraphInvocationView,
    class: ImpactProvenanceClass,
) -> ImpactProvenanceReportView {
    ImpactProvenanceReportView {
        class,
        package_id: input.target.package_id,
        target_name: input.target.name,
        target_role: input.target.role,
        compilation_context: input.target.compilation_context,
    }
}

/// Reports the target whose code uses a definition.
pub fn impact_provenance(input: &GraphInvocation<'_>, class: ImpactProvenanceClass) -> (report:
    ImpactProvenanceReport)
    ensures
        report.deep_view() == provenance_of(input.deep_view(), class),
{
    ImpactProvenanceReport {
        class,
        package_id: input.target.package_id.clone(),
        target_name: input.target.name.clone(),
        target_role: input.target.role.clone(),
        compilation_context: input.target.compilation_context.clone(),
    }
}

/// The kind of code that a target compiles: whatever runs on the host serves the build.
pub open spec fn compiled_class(target: CompilerTargetReportView) -> Option<
    ImpactProvenanceClass,
> {
    if target.compilation_context == "host"@ {
        Some(ImpactProvenanceClass::BuildTime)
    } else if target.role == "production"@ {
        Some(ImpactProvenanceClass::Production)
    } else if nonproduction_role(target.role) {
        Some(ImpactProvenanceClass::Nonproduction)
    } else if target.role == "build"@ {
        Some(ImpactProvenanceClass::BuildTime)
    } else {
        None
    }
}

/// The kind of code that a target compiles.
pub fn compiled_provenance(target: &CompilerTargetReport) -> (class: Option<ImpactProvenanceClass>)
    ensures
        class == compiled_class(target.deep_view()),
{
    if same(target.compilation_context.as_str(), "host") {
        Some(ImpactProvenanceClass::BuildTime)
    } else if same(target.role.as_str(), "production") {
        Some(ImpactProvenanceClass::Production)
    } else if is_nonproduction_role(target.role.as_str()) {
        Some(ImpactProvenanceClass::Nonproduction)
    } else if same(target.role.as_str(), "build") {
        Some(ImpactProvenanceClass::BuildTime)
    } else {
        None
    }
}

/// The name of a class in sort keys.
pub open spec fn class_name(class: ImpactProvenanceClass) -> Seq<char> {
    match class {
        ImpactProvenanceClass::Production => "Production"@,
        ImpactProvenanceClass::Nonproduction => "Nonproduction"@,
        ImpactProvenanceClass::BuildTime => "BuildTime"@,
        ImpactProvenanceClass::PublicInterface => "PublicInterface"@,
    }
}

fn class_text(class: ImpactProvenanceClass) -> (name: &'static str)
    ensures
        name@ == class_name(class),
{
    match class {
        ImpactProvenanceClass::Production => "Production",
        ImpactProvenanceClass::Nonproduction => "Nonproduction",
        ImpactProvenanceClass::BuildTime => "BuildTime",
        ImpactProvenanceClass::PublicInterface => "PublicInterface",
    }
}

/// The sort key of a definition: its names, then its place.
pub open spec fn definition_sort_key(definition: ImpactDefinitionReportView) -> Seq<char> {
    definition.package_id + "\0"@ + definition.package_name + "\0"@ + definition.target_name
        + "\0"@ + definition.crate_name + "\0"@ + definition.definition_path + "\0"@
        + definition.definition_kind + "\0"@ + match definition.span {
        Some(span) => span.path + "\0"@ + fixed_digits(span.line as nat, 10, 20) + "\0"@
            + fixed_digits(span.column as nat, 10, 20) + "\0"@ + fixed_digits(
            span.start_byte as nat,
            10,
            20,
        ),
        None => Seq::empty(),
    }
}

/// The sort key of a definition.
pub fn impact_definition_key(definition: &ImpactDefinitionReport) -> (key: String)
    ensures
        key@ == definition_sort_key(definition.deep_view()),
{
    let mut span_key = String::new();
    match &definition.span {
        None => {},
        Some(span) => {
            span_key = span.path.clone();
            span_key.append("\0");
            span_key.append(fixed_text(span.line, 10, 20).as_str());
            span_key.append("\0");
            span_key.append(fixed_text(span.column, 10, 20).as_str());
            span_key.append("\0");
            span_key.append(fixed_text(span.start_byte, 10, 20).as_str());
        },
    }
    let mut key = definition.package_id.clone();
    key.append("\0");
    key.append(definition.package_name.as_str());
    key.append("\0");
    key.append(definition.target_name.as_str());
    key.append("\0");
    key.append(definition.crate_name.as_str());
    key.append("\0");
    key.append(definition.definition_path.as_str());
    key.append("\0");
    key.append(definition.definition_kind.as_str());
    key.append("\0");
    key.append(span_key.as_str());
    key
}

/// The sort key of a direct use.
pub open spec fn reference_sort_key(reference: ImpactReferenceReportView) -> Seq<char> {
    class_name(reference.provenance.class) + "\0"@ + reference.provenance.package_id + "\0"@
        + reference.provenance.target_name + "\0"@ + reference.provenance.target_role + "\0"@
        + definition_sort_key(reference.consumer) + "\0"@ + reference.reference_kind + "\0"@
        + definition_sort_key(reference.dependency) + "\0"@ + match reference.representative_span {
        Some(span) => span.path + "\0"@ + fixed_digits(span.line as nat, 10, 20) + "\0"@
            + fixed_digits(span.column as nat, 10, 20),
        None => Seq::empty(),
    }
}

/// The sort key of a direct use.
pub fn impact_reference_key(reference: &ImpactReferenceReport) -> (key: String)
    ensures
        key@ == reference_sort_key(reference.deep_view()),
{
    let mut span_key = String::new();
    match &reference.representative_span {
        None => {},
        Some(span) => {
            span_key = span.path.clone();
            span_key.append("\0");
            span_key.append(fixed_text(span.line, 10, 20).as_str());
            span_key.append("\0");
            span_key.append(fixed_text(span.column, 10, 20).as_str());
        },
    }
    let mut key = class_text(reference.provenance.class).to_owned();
    key.append("\0");
    key.append(reference.provenance.package_id.as_str());
    key.append("\0");
    key.append(reference.provenance.target_name.as_str());
    key.append("\0");
    key.append(reference.provenance.target_role.as_str());
    key.append("\0");
    key.append(impact_definition_key(&reference.consumer).as_str());
    key.append("\0");
    key.append(reference.reference_kind.as_str());
    key.append("\0");
    key.append(impact_definition_key(&reference.dependency).as_str());
    key.append("\0");
    key.append(span_key.as_str());
    key
}

/// The sort key of a step.
pub open spec fn step_sort_key(step: ImpactReferenceStepReportView) -> Seq<char> {
    definition_sort_key(step.from) + "\0"@ + step.reference_kind + "\0"@ + definition_sort_key(
        step.to,
    )
}

/// The sort key of a witness: fewer steps come first.
pub open spec fn witness_sort_key(witness: ImpactWitnessReportView) -> (usize, Seq<char>) {
    (
        witness.steps.len() as usize,
        definition_sort_key(witness.root) + "\0"@ + witness.root_reason + "\0"@ + joined(
            Seq::new(witness.steps.len(), |i: int| step_sort_key(witness.steps[i])),
            "\0"@,
        ),
    )
}

/// The sort key of a witness.
pub fn impact_witness_key(witness: &ImpactWitnessReport) -> (key: (usize, String))
    ensures
        key.deep_view() == witness_sort_key(witness.deep_view()),
{
    let ghost steps = witness.deep_view().steps;
    let mut parts: Vec<String> = no_items();
    let mut index: usize = 0;
    while index < witness.steps.len()
        invariant
            steps == witness.deep_view().steps,
            index <= witness.steps.len(),
            parts.deep_view() =~= Seq::new(steps.len(), |i: int| step_sort_key(steps[i])).take(
                index as int,
            ),
        decreases witness.steps.len() - index,
    {
        let step = &witness.steps[index];
        proof {
            assert(steps[index as int] == step.deep_view());
        }
        let mut part = impact_definition_key(&step.from);
        part.append("\0");
        part.append(step.reference_kind.as_str());
        part.append("\0");
        part.append(impact_definition_key(&step.to).as_str());
        push_item(&mut parts, part);
        index = index + 1;
    }
    let mut text = impact_definition_key(&witness.root);
    text.append("\0");
    text.append(witness.root_reason.as_str());
    text.append("\0");
    proof {
        assert(parts.deep_view() =~= Seq::new(steps.len(), |i: int| step_sort_key(steps[i])));
        assert(witness.steps.len() == steps.len());
    }
    text.append(join(&parts, "\0").as_str());
    (witness.steps.len(), text)
}

impl WorldView {
    /// The report on a direct use, where its definitions and its target's class are known.
    pub open spec fn direct_use(self, edge: ReferenceEdge) -> Option<ImpactReferenceReportView> {
        let input = self.invocations[edge.invocation as int];
        let reference = self.reference((edge.invocation, edge.reference));
        match (
            self.named_or_state(edge.invocation, reference.from, edge.from),
            self.named_or_state(edge.to.invocation, reference.to, edge.to),
            compiled_class(input.target),
        ) {
            (Some(consumer), Some(dependency), Some(class)) => Some(
                ImpactReferenceReportView {
                    consumer: impact_definition_of(self.places, input, self.definition(consumer)),
                    dependency: impact_definition_of(
                        self.places,
                        self.invocations[edge.to.invocation as int],
                        self.definition(dependency),
                    ),
                    reference_kind: reference_name(reference.kind),
                    representative_span: optional_span(self.places, input, reference.span),
                    provenance: provenance_of(input, class),
                },
            ),
            _ => None,
        }
    }

    /// The report on one step of a chain of uses, where its definitions are known.
    pub open spec fn step(self, edge: ReferenceEdge) -> Option<ImpactReferenceStepReportView> {
        let input = self.invocations[edge.invocation as int];
        let reference = self.reference((edge.invocation, edge.reference));
        match (
            self.named_or_state(edge.invocation, reference.from, edge.from),
            self.named_or_state(edge.to.invocation, reference.to, edge.to),
        ) {
            (Some(from), Some(to)) => Some(
                ImpactReferenceStepReportView {
                    from: impact_definition_of(self.places, input, self.definition(from)),
                    to: impact_definition_of(
                        self.places,
                        self.invocations[edge.to.invocation as int],
                        self.definition(to),
                    ),
                    reference_kind: reference_name(edge.kind),
                    representative_span: optional_span(self.places, input, reference.span),
                },
            ),
            _ => None,
        }
    }
}

/// The ends of an edge of the graph are seen by invocations of the world.
pub open spec fn edge_fits(world: WorldView, edge: ReferenceEdge) -> bool {
    &&& edge.invocation < world.invocations.len()
    &&& edge.reference < world.invocations[edge.invocation as int].invocation.references.len()
    &&& edge.from.invocation == edge.invocation
    &&& edge.to.invocation < world.invocations.len()
}

/// Every edge of the graph of an actual world fits it.
pub proof fn lemma_edge_fits(world: &World<'_>, edge: ReferenceEdge)
    requires
        world.deep_view().reference_edges().contains(edge),
        world.deep_view().definition_cells().len() <= usize::MAX,
    ensures
        edge_fits(world.deep_view(), edge),
{
    let w = world.deep_view();
    crate::compiler::graph::lemma_world_fits(world);
    w.lemma_edge_places(edge);
    w.lemma_definition_cells();
    let total = w.definition_cells().len() as int;
    w.lemma_local_nodes(total);
    let cell = (edge.invocation, edge.reference);
    let id = w.reference(cell).to;
    let local = w.local_nodes();
    assert(w.edges_at()(cell).contains(edge));
    if local.contains_key((edge.invocation, id)) {
        assert(edge.to.invocation == edge.invocation);
    } else {
        assert(crate::compiler::graph::global_states(local, id).contains(edge.to));
        assert(local.contains_key((edge.to.invocation, id)));
        let k = choose|k: int|
            0 <= k < total && (#[trigger] w.definition_cells()[k]).0 == edge.to.invocation
                && w.definition(w.definition_cells()[k]).compiler_id == id;
        assert(w.definition_cells()[k].0 < w.invocations.len());
    }
}

/// Reports a direct use.
pub fn impact_reference_report(world: &World<'_>, graph: &Graph, edge: ReferenceEdge) -> (report:
    Option<ImpactReferenceReport>)
    requires
        graph.describes(world.deep_view()),
        edge_fits(world.deep_view(), edge),
    ensures
        report.deep_view() == world.deep_view().direct_use(edge),
{
    let input = input_of(world, edge.invocation);
    let reference: &Reference = &input.invocation.references[edge.reference];
    proof {
        assert(reference.deep_view() == world.deep_view().reference(
            (edge.invocation, edge.reference),
        ));
    }
    let consumer = match named_or_state(world, graph, edge.invocation, reference.from, edge.from) {
        Some(cell) => definition_in(world, cell),
        None => {
            return None;
        },
    };
    let dependency = match named_or_state(
        world,
        graph,
        edge.to.invocation,
        reference.to,
        edge.to,
    ) {
        Some(cell) => definition_in(world, cell),
        None => {
            return None;
        },
    };
    let class = match compiled_provenance(input.target) {
        Some(class) => class,
        None => {
            return None;
        },
    };
    Some(
        ImpactReferenceReport {
            consumer: impact_definition_report(world.places, input, consumer),
            dependency: impact_definition_report(
                world.places,
                input_of(world, edge.to.invocation),
                dependency,
            ),
            reference_kind: reference_kind(reference.kind).to_owned(),
            representative_span: source_span(world.places, input, &reference.span),
            provenance: impact_provenance(input, class),
        },
    )
}

/// Reports one step of a chain of uses.
pub fn impact_reference_step(world: &World<'_>, graph: &Graph, edge: ReferenceEdge) -> (report:
    Option<ImpactReferenceStepReport>)
    requires
        graph.describes(world.deep_view()),
        edge_fits(world.deep_view(), edge),
    ensures
        report.deep_view() == world.deep_view().step(edge),
{
    let input = input_of(world, edge.invocation);
    let reference: &Reference = &input.invocation.references[edge.reference];
    proof {
        assert(reference.deep_view() == world.deep_view().reference(
            (edge.invocation, edge.reference),
        ));
    }
    let from = match named_or_state(world, graph, edge.invocation, reference.from, edge.from) {
        Some(cell) => definition_in(world, cell),
        None => {
            return None;
        },
    };
    let to = match named_or_state(world, graph, edge.to.invocation, reference.to, edge.to) {
        Some(cell) => definition_in(world, cell),
        None => {
            return None;
        },
    };
    Some(
        ImpactReferenceStepReport {
            from: impact_definition_report(world.places, input, from),
            to: impact_definition_report(world.places, input_of(world, edge.to.invocation), to),
            reference_kind: reference_kind(edge.kind).to_owned(),
            representative_span: source_span(world.places, input, &reference.span),
        },
    )
}

} // verus!
