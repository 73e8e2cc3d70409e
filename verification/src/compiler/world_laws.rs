//! What the reference graph says of the references, roots and definitions that were recorded.

use vstd::prelude::*;

use crate::collections::{
    ascending, cells, collected, flat_image, group_at, grouped, image, lemma_ascending_exists, lemma_bounded_finite,
    lemma_cells, lemma_collected_step, lemma_image_finite,
};
use crate::compiler::graph::{
    by_node, canonical_key, definition_counts, global_states, follows_parents, interface_edge, local_state, optional_identity,
    reference_counts, root_counts, runtime_edge, spread_starts, spread_steps,
    step_requirement, step_with_parents, step_without_parents, targets_of, twins,
    visibility_key_of, GraphClass, WorldView,
};
use crate::compiler::graph_keys::{
    GraphState, ReferenceEdge, SpanIdentityView, VisibilityKey, VisibilityKeyView,
};
use crate::compiler::reach::{law_reach_is_closed, law_reach_is_least, reach};
use crate::model::CompilerTargetReportView;
use crate::protocol::{
    CompilerDefId, DefinitionView, ReferenceKind, ReferenceView, RootKind, RootView,
};

verus! {

/// A set of what a function yields on a finite set is finite.
proof fn lemma_yielded_finite<A, B>(source: Set<A>, f: spec_fn(A) -> B, set: Set<B>)
    requires
        source.finite(),
        forall|b: B| #[trigger]
            set.contains(b) ==> exists|a: A| #[trigger] source.contains(a) && f(a) == b,
    ensures
        set.finite(),
{
    source.lemma_map_finite(f);
    assert forall|b: B| set.contains(b) implies source.map(f).contains(b) by {
        let a = choose|a: A| #[trigger] source.contains(a) && f(a) == b;
        assert(source.map(f).contains(f(a)));
    }
    vstd::set_lib::lemma_set_subset_finite(source.map(f), set);
}

/// Pairs out of two finite sets are finitely many.
proof fn lemma_pairs_finite<A, B>(left: Set<A>, right: Set<B>, set: Set<(A, B)>)
    requires
        left.finite(),
        right.finite(),
        forall|pair: (A, B)| #[trigger]
            set.contains(pair) ==> left.contains(pair.0) && right.contains(pair.1),
    ensures
        set.finite(),
    decreases left.len(),
{
    if left.len() == 0 {
        assert(left =~= Set::<A>::empty());
        assert(set =~= Set::<(A, B)>::empty());
    } else {
        let a = left.choose();
        let with = set.filter(|pair: (A, B)| pair.0 == a);
        let without = set.filter(|pair: (A, B)| pair.0 != a);
        lemma_pairs_finite(left.remove(a), right, without);
        assert forall|pair: (A, B)| #[trigger] with.contains(pair) implies exists|b: B| #[trigger]
            right.contains(b) && (a, b) == pair by {
            assert(right.contains(pair.1));
        }
        lemma_yielded_finite(right, |b: B| (a, b), with);
        assert(set =~= with.union(without));
        vstd::set_lib::lemma_set_union_finite_iff(with, without);
    }
}

pub proof fn lemma_states_finite(set: Set<GraphState>)
    ensures
        set.finite(),
{
    let words = Set::<usize>::full();
    lemma_bounded_finite(words, usize::MAX + 1);
    let pairs = Set::<(usize, usize)>::full();
    lemma_pairs_finite(words, words, pairs);
    let f = |pair: (usize, usize)| GraphState { invocation: pair.0, node: pair.1 };
    assert forall|s: GraphState| #[trigger] set.contains(s) implies exists|pair: (usize, usize)|
     #[trigger] pairs.contains(pair) && f(pair) == s by {
        assert(pairs.contains((s.invocation, s.node)));
        assert(f((s.invocation, s.node)) == s);
    }
    lemma_yielded_finite(pairs, f, set);
}

proof fn lemma_kinds_finite(set: Set<ReferenceKind>)
    ensures
        set.finite(),
{
    let all = set![
        ReferenceKind::Body,
        ReferenceKind::Interface,
        ReferenceKind::Reexport,
        ReferenceKind::VisibilityParent,
        ReferenceKind::VisibilityRequirement,
    ];
    assert(set.subset_of(all));
    vstd::set_lib::lemma_set_subset_finite(all, set);
}

proof fn lemma_links_finite(set: Set<(GraphState, (GraphState, ReferenceKind))>)
    ensures
        set.finite(),
{
    let states = Set::<GraphState>::full();
    let kinds = Set::<ReferenceKind>::full();
    let ends = Set::<(GraphState, ReferenceKind)>::full();
    lemma_states_finite(states);
    lemma_kinds_finite(kinds);
    lemma_pairs_finite(states, kinds, ends);
    lemma_pairs_finite(states, ends, set);
}

proof fn lemma_steps_finite(set: Set<((GraphState, bool), (GraphState, bool))>)
    ensures
        set.finite(),
{
    let states = Set::<GraphState>::full();
    let flags = Set::<bool>::full();
    let places = Set::<(GraphState, bool)>::full();
    lemma_states_finite(states);
    assert(flags =~= set![true, false]);
    lemma_pairs_finite(states, flags, places);
    lemma_pairs_finite(places, places, set);
}

pub proof fn lemma_edges_finite(set: Set<ReferenceEdge>)
    ensures
        set.finite(),
{
    let states = Set::<GraphState>::full();
    let links = Set::<(GraphState, (GraphState, ReferenceKind))>::full();
    let full = Set::<((GraphState, (GraphState, ReferenceKind)), GraphState)>::full();
    lemma_states_finite(states);
    lemma_links_finite(links);
    lemma_pairs_finite(links, states, full);
    let f = |item: ((GraphState, (GraphState, ReferenceKind)), GraphState)|
        ReferenceEdge {
            from: (item.0).0,
            to: ((item.0).1).0,
            kind: ((item.0).1).1,
            invocation: item.1.invocation,
            reference: item.1.node,
        };
    assert forall|edge: ReferenceEdge| #[trigger] set.contains(edge) implies exists|
        item: ((GraphState, (GraphState, ReferenceKind)), GraphState),
    | #[trigger] full.contains(item) && f(item) == edge by {
        let item = (
            (edge.from, (edge.to, edge.kind)),
            GraphState { invocation: edge.invocation, node: edge.reference },
        );
        assert(full.contains(item));
        assert(f(item) == edge);
    }
    lemma_yielded_finite(full, f, set);
}

/// Whether the numbers of invocations, and of what each of them recorded, fit a machine word.
pub open spec fn countable(world: WorldView) -> bool {
    &&& world.invocations.len() <= usize::MAX
    &&& forall|i: int|
        0 <= i < world.invocations.len() ==> (
        #[trigger] world.invocations[i]).invocation.definitions.len() <= usize::MAX
            && world.invocations[i].invocation.roots.len() <= usize::MAX
            && world.invocations[i].invocation.references.len() <= usize::MAX
}

/// Whether an invocation recorded a reference.
pub open spec fn recorded(world: WorldView, i: usize, k: usize) -> bool {
    i < world.invocations.len() && k < world.invocations[i as int].invocation.references.len()
}

/// A reference that an invocation recorded.
pub open spec fn reference_at(world: WorldView, i: usize, k: usize) -> ReferenceView {
    world.invocations[i as int].invocation.references[k as int]
}

/// Whether a recorded reference leads from one state to another: from the state of its source in
/// the invocation to a state that its target stands for.
pub open spec fn leads(world: WorldView, i: usize, k: usize, a: GraphState, b: GraphState) -> bool {
    let local = world.local_nodes();
    &&& recorded(world, i, k)
    &&& local_state(local, i, reference_at(world, i, k).from) == Some(a)
    &&& targets_of(local, i, reference_at(world, i, k).to) is Some
    &&& targets_of(local, i, reference_at(world, i, k).to)->0.contains(b)
}

/// Whether an invocation recorded a root of a state.
pub open spec fn roots_in(world: WorldView, i: usize, k: usize, s: GraphState) -> bool {
    &&& i < world.invocations.len()
    &&& k < world.invocations[i as int].invocation.roots.len()
    &&& local_state(world.local_nodes(), i, root_at(world, i, k).definition) == Some(s)
}

/// A root that an invocation recorded.
pub open spec fn root_at(world: WorldView, i: usize, k: usize) -> RootView {
    world.invocations[i as int].invocation.roots[k as int]
}

/// Whether a target is production code, or code that tests, measures or shows it. Code that runs
/// on the host while the product is built is neither, but for procedural macros.
pub open spec fn serves(target: CompilerTargetReportView, class: GraphClass) -> bool {
    (target.compilation_context == "host"@ ==> target.kinds.contains("proc-macro"@)) && match class {
        GraphClass::Production => target.role == "production"@,
        GraphClass::Nonproduction => target.role == "unit_test"@ || target.role == "test"@
            || target.role == "bench"@ || target.role == "example"@,
    }
}

/// Whether code is used along a kind of reference: all but those that only say how visible
/// something has to be.
pub open spec fn uses(kind: ReferenceKind) -> bool {
    match kind {
        ReferenceKind::Body
        | ReferenceKind::Interface
        | ReferenceKind::Reexport
        | ReferenceKind::VisibilityParent => true,
        ReferenceKind::VisibilityRequirement => false,
    }
}

/// Whether a recorded reference leads out of the crate that holds it.
pub open spec fn leaves_crate(world: WorldView, i: usize, k: usize) -> bool {
    reference_at(world, i, k).from.stable_crate_id != reference_at(world, i, k).to.stable_crate_id
}

/// Whether a state is where the code of targets of a class starts: at their roots, and for
/// production code also at what it uses of other crates.
pub open spec fn starts(world: WorldView, class: GraphClass, s: GraphState) -> bool {
    ||| exists|i: usize, k: usize| #[trigger]
        roots_in(world, i, k, s) && root_at(world, i, k).kind != RootKind::RequiredPublic && serves(
            world.invocations[i as int].target,
            class,
        )
    ||| class == GraphClass::Production && exists|i: usize, k: usize, a: GraphState| #[trigger]
        leads(world, i, k, a, s) && leaves_crate(world, i, k) && serves(
            world.invocations[i as int].target,
            class,
        )
}

/// Whether a set of states holds all starts of a class, and with each state all that it uses.
pub open spec fn self_sufficient(
    world: WorldView,
    class: GraphClass,
    states: Set<GraphState>,
) -> bool {
    &&& forall|s: GraphState| #[trigger] starts(world, class, s) ==> states.contains(s)
    &&& forall|i: usize, k: usize, a: GraphState, b: GraphState| #[trigger]
        leads(world, i, k, a, b) && uses(reference_at(world, i, k).kind) && states.contains(a)
            ==> states.contains(b)
}

/// Whether a state cannot be left out where the starts of a class are kept and nothing that is
/// kept lacks what it uses.
pub open spec fn live(world: WorldView, class: GraphClass, s: GraphState) -> bool {
    forall|states: Set<GraphState>| #[trigger]
        self_sufficient(world, class, states) ==> states.contains(s)
}

/// The edges of the graph are the recorded references that lead somewhere.
pub proof fn law_edges_are_recorded_references(world: WorldView, edge: ReferenceEdge)
    requires
        countable(world),
    ensures
        world.reference_edges().contains(edge) <==> leads(
            world,
            edge.invocation,
            edge.reference,
            edge.from,
            edge.to,
        ) && edge.kind == reference_at(world, edge.invocation, edge.reference).kind,
{
    let all = world.reference_cells();
    let at = (edge.invocation, edge.reference);
    lemma_cells(reference_counts(world.invocations));
    if world.reference_edges().contains(edge) {
        world.lemma_edge_places(edge);
    }
    if leads(world, edge.invocation, edge.reference, edge.from, edge.to) && edge.kind
        == reference_at(world, edge.invocation, edge.reference).kind {
        assert(reference_counts(world.invocations)[at.0 as int]
            == world.invocations[at.0 as int].invocation.references.len());
        assert(all.contains(at));
        let n = choose|n: int| 0 <= n < all.len() && all[n] == at;
        assert(world.edges_at()(all[n]).contains(edge));
    }
}

/// The edges in order are the edges.
pub proof fn lemma_edge_list(world: WorldView)
    ensures
        forall|edge: ReferenceEdge|
            world.edge_list().contains(edge) <==> #[trigger] world.reference_edges().contains(edge),
{
    lemma_edges_finite(world.reference_edges());
    lemma_ascending_exists::<ReferenceEdge>(world.reference_edges());
    assert forall|edge: ReferenceEdge|
        world.edge_list().contains(edge) <==> #[trigger] world.reference_edges().contains(
            edge,
        ) by {
        assert(world.edge_list().to_set().contains(edge) <==> world.edge_list().contains(edge));
    }
}

/// Code is used along just the recorded references that are no mere visibility requirements.
proof fn lemma_runtime_edges(world: WorldView, a: GraphState, b: GraphState)
    requires
        countable(world),
    ensures
        world.runtime_edges().contains((a, b)) <==> exists|i: usize, k: usize| #[trigger]
            leads(world, i, k, a, b) && uses(reference_at(world, i, k).kind),
{
    let list = world.edge_list();
    lemma_edge_list(world);
    if world.runtime_edges().contains((a, b)) {
        let n = choose|n: int|
            0 <= n < list.len() && runtime_edge()(#[trigger] list[n]) == Some((a, b));
        let edge = list[n];
        assert(list.contains(edge));
        law_edges_are_recorded_references(world, edge);
        assert(leads(world, edge.invocation, edge.reference, a, b));
    }
    if exists|i: usize, k: usize| #[trigger]
        leads(world, i, k, a, b) && uses(reference_at(world, i, k).kind) {
        let (i, k) = choose|i: usize, k: usize| #[trigger]
            leads(world, i, k, a, b) && uses(reference_at(world, i, k).kind);
        let edge = ReferenceEdge {
            from: a,
            to: b,
            kind: reference_at(world, i, k).kind,
            invocation: i,
            reference: k,
        };
        law_edges_are_recorded_references(world, edge);
        assert(list.contains(edge));
        let n = choose|n: int| 0 <= n < list.len() && list[n] == edge;
        assert(runtime_edge()(list[n]) == Some((a, b)));
    }
}

/// The roots of a class are its starts.
proof fn lemma_starts(world: WorldView, s: GraphState)
    requires
        countable(world),
    ensures
        world.production_roots().contains(s) <==> starts(world, GraphClass::Production, s),
        world.nonproduction_roots().contains(s) <==> starts(world, GraphClass::Nonproduction, s),
{
    lemma_class_roots(world, GraphClass::Production, s);
    lemma_class_roots(world, GraphClass::Nonproduction, s);
    let list = world.edge_list();
    let f = world.crossing_root();
    lemma_edge_list(world);
    if image(list, f).contains(s) {
        let n = choose|n: int| 0 <= n < list.len() && f(#[trigger] list[n]) == Some(s);
        let edge = list[n];
        assert(list.contains(edge));
        law_edges_are_recorded_references(world, edge);
        assert(leads(world, edge.invocation, edge.reference, edge.from, s));
    }
    if exists|i: usize, k: usize, a: GraphState| #[trigger]
        leads(world, i, k, a, s) && leaves_crate(world, i, k) && serves(
            world.invocations[i as int].target,
            GraphClass::Production,
        ) {
        let (i, k, a) = choose|i: usize, k: usize, a: GraphState| #[trigger]
            leads(world, i, k, a, s) && leaves_crate(world, i, k) && serves(
                world.invocations[i as int].target,
                GraphClass::Production,
            );
        let edge = ReferenceEdge {
            from: a,
            to: s,
            kind: reference_at(world, i, k).kind,
            invocation: i,
            reference: k,
        };
        law_edges_are_recorded_references(world, edge);
        assert(list.contains(edge));
        let n = choose|n: int| 0 <= n < list.len() && list[n] == edge;
        assert(f(list[n]) == Some(s));
    }
}

/// The roots that were recorded for targets of a class.
proof fn lemma_class_roots(world: WorldView, class: GraphClass, s: GraphState)
    requires
        countable(world),
    ensures
        image(world.root_cells(), world.live_root(class)).contains(s) <==> exists|
            i: usize,
            k: usize,
        | #[trigger]
            roots_in(world, i, k, s) && root_at(world, i, k).kind != RootKind::RequiredPublic
                && serves(world.invocations[i as int].target, class),
{
    let all = world.root_cells();
    let f = world.live_root(class);
    lemma_root_cells(world);
    reveal_strlit("production");
    reveal_strlit("unit_test");
    reveal_strlit("test");
    reveal_strlit("bench");
    reveal_strlit("example");
    assert("production"@.len() == 10 && "unit_test"@.len() == 9 && "test"@.len() == 4
        && "bench"@.len() == 5 && "example"@.len() == 7);
    if image(all, f).contains(s) {
        let n = choose|n: int| 0 <= n < all.len() && f(#[trigger] all[n]) == Some(s);
        assert(roots_in(world, all[n].0, all[n].1, s));
    }
    if exists|i: usize, k: usize| #[trigger]
        roots_in(world, i, k, s) && root_at(world, i, k).kind != RootKind::RequiredPublic && serves(
            world.invocations[i as int].target,
            class,
        ) {
        let (i, k) = choose|i: usize, k: usize| #[trigger]
            roots_in(world, i, k, s) && root_at(world, i, k).kind != RootKind::RequiredPublic
                && serves(world.invocations[i as int].target, class);
        assert(all.contains((i, k)));
        let n = choose|n: int| 0 <= n < all.len() && all[n] == (i, k);
        assert(f(all[n]) == Some(s));
    }
}

/// Every recorded root has its place, and every place holds a recorded root.
pub proof fn lemma_root_cells(world: WorldView)
    requires
        countable(world),
    ensures
        forall|n: int|
            0 <= n < world.root_cells().len() ==> (#[trigger] world.root_cells()[n]).0
                < world.invocations.len() && world.root_cells()[n].1
                < world.invocations[world.root_cells()[n].0 as int].invocation.roots.len(),
        forall|i: usize, k: usize|
            i < world.invocations.len() && k < world.invocations[i as int].invocation.roots.len()
                ==> #[trigger] world.root_cells().contains((i, k)),
{
    lemma_cells(root_counts(world.invocations));
    assert forall|i: int| 0 <= i < world.invocations.len() implies root_counts(
        world.invocations,
    )[i] == (#[trigger] world.invocations[i]).invocation.roots.len() by {}
}

/// Every recorded reference has its place, and every place holds a recorded reference.
pub proof fn lemma_reference_cells(world: WorldView)
    requires
        countable(world),
    ensures
        forall|n: int|
            0 <= n < world.reference_cells().len() ==> recorded(
                world,
                (#[trigger] world.reference_cells()[n]).0,
                world.reference_cells()[n].1,
            ),
        forall|i: usize, k: usize|
            recorded(world, i, k) ==> #[trigger] world.reference_cells().contains((i, k)),
{
    lemma_cells(reference_counts(world.invocations));
    assert forall|i: int| 0 <= i < world.invocations.len() implies reference_counts(
        world.invocations,
    )[i] == (#[trigger] world.invocations[i]).invocation.references.len() by {}
}

/// What is live is found, and nothing else: a definition is live in production, or in tests,
/// benches and examples, just where it cannot be left out while their roots are kept and
/// everything is kept that the kept code uses in its bodies, its interfaces, its reexports or as
/// the modules around it.
pub proof fn law_live_definitions_are_what_the_roots_use(world: WorldView, node: usize)
    requires
        countable(world),
    ensures
        world.production_live().contains(node) <==> exists|s: GraphState| #[trigger]
            live(world, GraphClass::Production, s) && s.node == node,
        world.nonproduction_live().contains(node) <==> exists|s: GraphState| #[trigger]
            live(world, GraphClass::Nonproduction, s) && s.node == node,
{
    lemma_live(world, GraphClass::Production, world.production_roots());
    lemma_live(world, GraphClass::Nonproduction, world.nonproduction_roots());
    let p = reach(world.production_roots(), world.runtime_edges());
    let n = reach(world.nonproduction_roots(), world.runtime_edges());
    if world.production_live().contains(node) {
        let s = choose|s: GraphState| #[trigger] p.contains(s) && s.node == node;
        assert(live(world, GraphClass::Production, s));
    }
    if exists|s: GraphState| #[trigger] live(world, GraphClass::Production, s) && s.node == node {
        let s = choose|s: GraphState| #[trigger]
            live(world, GraphClass::Production, s) && s.node == node;
        assert(p.contains(s));
    }
    if world.nonproduction_live().contains(node) {
        let s = choose|s: GraphState| #[trigger] n.contains(s) && s.node == node;
        assert(live(world, GraphClass::Nonproduction, s));
    }
    if exists|s: GraphState| #[trigger]
        live(world, GraphClass::Nonproduction, s) && s.node == node {
        let s = choose|s: GraphState| #[trigger]
            live(world, GraphClass::Nonproduction, s) && s.node == node;
        assert(n.contains(s));
    }
}

/// What the roots of a class reach is what is live in it.
proof fn lemma_live(world: WorldView, class: GraphClass, roots: Set<GraphState>)
    requires
        countable(world),
        roots == match class {
            GraphClass::Production => world.production_roots(),
            GraphClass::Nonproduction => world.nonproduction_roots(),
        },
    ensures
        forall|s: GraphState|
            reach(roots, world.runtime_edges()).contains(s) <==> #[trigger] live(world, class, s),
        self_sufficient(world, class, reach(roots, world.runtime_edges())),
{
    let edges = world.runtime_edges();
    let reached = reach(roots, edges);
    law_reach_is_closed(roots, edges);
    assert(self_sufficient(world, class, reached)) by {
        assert forall|s: GraphState| #[trigger] starts(world, class, s) implies reached.contains(
            s,
        ) by {
            lemma_starts(world, s);
        }
        assert forall|i: usize, k: usize, a: GraphState, b: GraphState| #[trigger]
            leads(world, i, k, a, b) && uses(reference_at(world, i, k).kind) && reached.contains(
                a,
            ) implies reached.contains(b) by {
            lemma_runtime_edges(world, a, b);
            assert(edges.contains((a, b)));
        }
    }
    assert forall|s: GraphState| reached.contains(s) <==> #[trigger] live(world, class, s) by {
        if reached.contains(s) {
            assert forall|states: Set<GraphState>| #[trigger]
                self_sufficient(world, class, states) implies states.contains(s) by {
                assert forall|t: GraphState| roots.contains(t) implies states.contains(t) by {
                    lemma_starts(world, t);
                }
                assert forall|a: GraphState, b: GraphState|
                    states.contains(a) && #[trigger] edges.contains((a, b)) implies states.contains(
                    b,
                ) by {
                    lemma_runtime_edges(world, a, b);
                    let (i, k) = choose|i: usize, k: usize| #[trigger]
                        leads(world, i, k, a, b) && uses(reference_at(world, i, k).kind);
                    assert(leads(world, i, k, a, b));
                }
                law_reach_is_least(roots, edges, states);
            }
        }
    }
}

/// What live code refers to is live, whether it does so in a body, in an interface, by a reexport
/// or as the module around it.
pub proof fn law_references_of_live_code_are_live(
    world: WorldView,
    class: GraphClass,
    i: usize,
    k: usize,
    a: GraphState,
    b: GraphState,
)
    requires
        countable(world),
        leads(world, i, k, a, b),
        live(world, class, a),
        reference_at(world, i, k).kind == ReferenceKind::Body || reference_at(world, i, k).kind
            == ReferenceKind::Interface || reference_at(world, i, k).kind == ReferenceKind::Reexport
            || reference_at(world, i, k).kind == ReferenceKind::VisibilityParent,
    ensures
        live(world, class, b),
        class == GraphClass::Production ==> reach(
            world.production_roots(),
            world.runtime_edges(),
        ).contains(b) && world.production_live().contains(b.node),
        class == GraphClass::Nonproduction ==> reach(
            world.nonproduction_roots(),
            world.runtime_edges(),
        ).contains(b) && world.nonproduction_live().contains(b.node),
{
    lemma_live(world, GraphClass::Production, world.production_roots());
    lemma_live(world, GraphClass::Nonproduction, world.nonproduction_roots());
    assert forall|states: Set<GraphState>| #[trigger]
        self_sufficient(world, class, states) implies states.contains(b) by {
        assert(states.contains(a));
    }
    assert(live(world, class, b));
}

/// Whether a state has to be public by itself, for a reason: a root says so, or code of another
/// crate refers to it.
pub open spec fn called_for(world: WorldView, s: GraphState, reason: Seq<char>) -> bool {
    ||| exists|i: usize, k: usize| #[trigger]
        roots_in(world, i, k, s) && root_at(world, i, k).kind == RootKind::RequiredPublic
            && root_at(world, i, k).reason == reason
    ||| reason == "referenced from another selected crate"@ && exists|
        i: usize,
        k: usize,
        a: GraphState,
    | #[trigger] leads(world, i, k, a, s) && leaves_crate(world, i, k)
}

/// Whether the modules around a state have to be public with it: where it has to be public for
/// more than a reexport.
pub open spec fn needs_modules(world: WorldView, s: GraphState) -> bool {
    exists|reason: Seq<char>| #[trigger]
        called_for(world, s, reason) && reason
            != "a public reexport requires this local target to remain public"@
}

/// Whether an invocation recorded a definition of a state.
pub open spec fn declares(world: WorldView, i: usize, k: usize, s: GraphState) -> bool {
    &&& i < world.invocations.len()
    &&& k < world.invocations[i as int].invocation.definitions.len()
    &&& local_state(world.local_nodes(), i, definition_at(world, i, k).compiler_id) == Some(s)
}

/// A definition that an invocation recorded.
pub open spec fn definition_at(world: WorldView, i: usize, k: usize) -> DefinitionView {
    world.invocations[i as int].invocation.definitions[k as int]
}

/// Where a recorded definition stands in the sources.
pub open spec fn place_of(world: WorldView, i: usize, k: usize) -> Option<SpanIdentityView> {
    optional_identity(
        world.places,
        world.invocations[i as int].invocation.sources,
        definition_at(world, i, k).span,
    )
}

/// Whether two recorded definitions have one visibility that can be edited: they are of one kind,
/// at one place.
pub open spec fn one_visibility(world: WorldView, i: usize, k: usize, j: usize, m: usize) -> bool {
    &&& definition_at(world, i, k).visibility_editable
    &&& definition_at(world, j, m).visibility_editable
    &&& definition_at(world, i, k).kind == definition_at(world, j, m).kind
    &&& place_of(world, i, k) is Some
    &&& place_of(world, i, k) == place_of(world, j, m)
}

/// Whether two states have one visibility.
pub open spec fn share_visibility(world: WorldView, a: GraphState, b: GraphState) -> bool {
    exists|i: usize, k: usize, j: usize, m: usize|
        #![trigger declares(world, i, k, a), declares(world, j, m, b)]
        declares(world, i, k, a) && declares(world, j, m, b) && one_visibility(world, i, k, j, m)
}

/// Whether a state that has to be public makes another one so: by an interface, a reexport or a
/// visibility requirement, as the module around it where modules are needed, or because both have
/// one visibility.
pub open spec fn makes_public(
    world: WorldView,
    a: GraphState,
    b: GraphState,
    modules: bool,
) -> bool {
    ||| exists|i: usize, k: usize| #[trigger]
        leads(world, i, k, a, b) && match reference_at(world, i, k).kind {
            ReferenceKind::Interface
            | ReferenceKind::Reexport
            | ReferenceKind::VisibilityRequirement => true,
            ReferenceKind::VisibilityParent => modules,
            ReferenceKind::Body => false,
        }
    ||| a != b && share_visibility(world, a, b)
}

/// Whether a set holds all states that have to be public by themselves, each with whether modules
/// are needed, and with each state all that it makes public.
pub open spec fn keeps_public(world: WorldView, places: Set<(GraphState, bool)>) -> bool {
    &&& forall|s: GraphState, reason: Seq<char>| #[trigger]
        called_for(world, s, reason) ==> places.contains((s, needs_modules(world, s)))
    &&& forall|a: GraphState, b: GraphState, modules: bool| #[trigger]
        makes_public(world, a, b, modules) && places.contains((a, modules)) ==> places.contains(
            (b, modules),
        )
}

/// Whether a state cannot be left out where everything is kept public that has to be.
pub open spec fn needed(world: WorldView, s: GraphState, modules: bool) -> bool {
    forall|places: Set<(GraphState, bool)>| #[trigger]
        keeps_public(world, places) ==> places.contains((s, modules))
}

/// Whether a state has to be public.
pub open spec fn must_be_public(world: WorldView, s: GraphState) -> bool {
    needed(world, s, true) || needed(world, s, false)
}

/// Whether a state has to be public for a reason of its own, or because another one has to be.
pub open spec fn justified(world: WorldView, s: GraphState, reason: Seq<char>) -> bool {
    ||| called_for(world, s, reason)
    ||| reason == "required by a public interface or visibility edge"@ && exists|
        a: GraphState,
        modules: bool,
    | #[trigger] makes_public(world, a, s, modules) && needed(world, a, modules)
}

/// What has to be public by itself, and why.
proof fn lemma_called_for(world: WorldView, s: GraphState)
    requires
        countable(world),
    ensures
        world.initially_required().contains_key(s) <==> exists|reason: Seq<char>| #[trigger]
            called_for(world, s, reason),
        forall|reason: Seq<char>|
            group_at(world.initially_required(), s).contains(reason) <==> #[trigger] called_for(
                world,
                s,
                reason,
            ),
{
    let cells = world.root_cells();
    let list = world.edge_list();
    let f = world.required_root();
    let g = world.crossing_requirement();
    lemma_root_cells(world);
    lemma_edge_list(world);
    assert forall|reason: Seq<char>|
        group_at(world.initially_required(), s).contains(reason) <==> #[trigger] called_for(
            world,
            s,
            reason,
        ) by {
        if group_at(world.initially_required(), s).contains(reason) {
            if group_at(grouped(cells, f), s).contains(reason) {
                let n = choose|n: int|
                    0 <= n < cells.len() && f(#[trigger] cells[n]) == Some((s, reason));
                assert(roots_in(world, cells[n].0, cells[n].1, s));
            } else {
                assert(group_at(grouped(list, g), s).contains(reason));
                let n = choose|n: int|
                    0 <= n < list.len() && g(#[trigger] list[n]) == Some((s, reason));
                let edge = list[n];
                assert(list.contains(edge));
                law_edges_are_recorded_references(world, edge);
                assert(leads(world, edge.invocation, edge.reference, edge.from, s));
            }
        }
        if exists|i: usize, k: usize| #[trigger]
            roots_in(world, i, k, s) && root_at(world, i, k).kind == RootKind::RequiredPublic
                && root_at(world, i, k).reason == reason {
            let (i, k) = choose|i: usize, k: usize| #[trigger]
                roots_in(world, i, k, s) && root_at(world, i, k).kind == RootKind::RequiredPublic
                    && root_at(world, i, k).reason == reason;
            assert(cells.contains((i, k)));
            let n = choose|n: int| 0 <= n < cells.len() && cells[n] == (i, k);
            assert(f(cells[n]) == Some((s, reason)));
            assert(grouped(cells, f).contains_key(s));
            assert(grouped(cells, f)[s].contains(reason));
        }
        if reason == "referenced from another selected crate"@ && exists|
            i: usize,
            k: usize,
            a: GraphState,
        | #[trigger] leads(world, i, k, a, s) && leaves_crate(world, i, k) {
            let (i, k, a) = choose|i: usize, k: usize, a: GraphState| #[trigger]
                leads(world, i, k, a, s) && leaves_crate(world, i, k);
            let edge = ReferenceEdge {
                from: a,
                to: s,
                kind: reference_at(world, i, k).kind,
                invocation: i,
                reference: k,
            };
            law_edges_are_recorded_references(world, edge);
            assert(list.contains(edge));
            let n = choose|n: int| 0 <= n < list.len() && list[n] == edge;
            assert(g(list[n]) == Some((s, reason)));
            assert(grouped(list, g).contains_key(s));
            assert(grouped(list, g)[s].contains(reason));
        }
    }
    if world.initially_required().contains_key(s) {
        if grouped(cells, f).contains_key(s) {
            let n = choose|n: int|
                0 <= n < cells.len() && f(#[trigger] cells[n]) is Some && (f(cells[n])->0).0 == s;
            let reason = (f(cells[n])->0).1;
            assert(f(cells[n]) == Some((s, reason)));
            assert(grouped(cells, f)[s].contains(reason));
            assert(called_for(world, s, reason));
        } else {
            let n = choose|n: int|
                0 <= n < list.len() && g(#[trigger] list[n]) is Some && (g(list[n])->0).0 == s;
            let reason = (g(list[n])->0).1;
            assert(g(list[n]) == Some((s, reason)));
            assert(grouped(list, g)[s].contains(reason));
            assert(called_for(world, s, reason));
        }
    }
    if exists|reason: Seq<char>| #[trigger] called_for(world, s, reason) {
        let reason = choose|reason: Seq<char>| #[trigger] called_for(world, s, reason);
        assert(group_at(world.initially_required(), s).contains(reason));
    }
}

/// Every recorded definition has its place, and every place holds a recorded definition.
pub proof fn lemma_definition_places(world: WorldView)
    requires
        countable(world),
    ensures
        forall|n: int|
            0 <= n < world.definition_cells().len() ==> (#[trigger] world.definition_cells()[n]).0
                < world.invocations.len() && world.definition_cells()[n].1
                < world.invocations[world.definition_cells()[n].0 as int].invocation.definitions.len(),
        forall|i: usize, k: usize|
            i < world.invocations.len() && k
                < world.invocations[i as int].invocation.definitions.len()
                ==> #[trigger] world.definition_cells().contains((i, k)),
{
    lemma_cells(definition_counts(world.invocations));
    assert forall|i: int| 0 <= i < world.invocations.len() implies definition_counts(
        world.invocations,
    )[i] == (#[trigger] world.invocations[i]).invocation.definitions.len() by {}
}

/// The edges between states of one visibility.
proof fn lemma_twin_edges(world: WorldView, a: GraphState, b: GraphState, kind: ReferenceKind)
    requires
        countable(world),
    ensures
        world.twin_edges().contains((a, (b, kind))) <==> kind == ReferenceKind::Interface && a != b
            && share_visibility(world, a, b),
{
    let cells = world.definition_cells();
    let f = world.visibility_state();
    let groups = world.visibility_groups();
    let keys = ascending::<VisibilityKey>(groups.dom());
    let g = |key: VisibilityKeyView| twins(groups[key]);
    let h = |cell: (usize, usize)|
        match f(cell) {
            Some(pair) => Some(pair.0),
            None => None,
        };
    lemma_definition_places(world);
    assert(world.twin_edges() == flat_image(keys, g));
    lemma_image_finite(cells, h);
    assert(groups.dom() =~= image(cells, h)) by {
        assert forall|key: VisibilityKeyView| groups.dom().contains(key) <==> image(
            cells,
            h,
        ).contains(key) by {
            if groups.dom().contains(key) {
                let n = choose|n: int|
                    0 <= n < cells.len() && f(#[trigger] cells[n]) is Some && (f(cells[n])->0).0
                        == key;
                assert(h(cells[n]) == Some(key));
            }
            if image(cells, h).contains(key) {
                let n = choose|n: int| 0 <= n < cells.len() && h(#[trigger] cells[n]) == Some(key);
                assert(f(cells[n]) is Some && (f(cells[n])->0).0 == key);
            }
        }
    }
    lemma_ascending_exists::<VisibilityKey>(groups.dom());
    if world.twin_edges().contains((a, (b, kind))) {
        let n = choose|n: int|
            0 <= n < keys.len() && g(#[trigger] keys[n]).contains((a, (b, kind)));
        let key = keys[n];
        assert(keys.to_set().contains(key));
        let x = choose|x: int| 0 <= x < cells.len() && f(#[trigger] cells[x]) == Some((key, a));
        let y = choose|y: int| 0 <= y < cells.len() && f(#[trigger] cells[y]) == Some((key, b));
        let (i, k) = cells[x];
        let (j, m) = cells[y];
        assert(declares(world, i, k, a));
        assert(declares(world, j, m, b));
        assert(one_visibility(world, i, k, j, m));
    }
    if kind == ReferenceKind::Interface && a != b && share_visibility(world, a, b) {
        let (i, k, j, m) = choose|i: usize, k: usize, j: usize, m: usize|
            #![trigger declares(world, i, k, a), declares(world, j, m, b)]
            declares(world, i, k, a) && declares(world, j, m, b) && one_visibility(
                world,
                i,
                k,
                j,
                m,
            );
        let key = VisibilityKeyView {
            kind: definition_at(world, i, k).kind,
            span: place_of(world, i, k)->0,
        };
        assert(visibility_key_of(
            world.places,
            world.invocations[i as int],
            definition_at(world, i, k),
        ) == Some(key));
        assert(visibility_key_of(
            world.places,
            world.invocations[j as int],
            definition_at(world, j, m),
        ) == Some(key));
        assert(cells.contains((i, k)) && cells.contains((j, m)));
        let x = choose|x: int| 0 <= x < cells.len() && cells[x] == (i, k);
        let y = choose|y: int| 0 <= y < cells.len() && cells[y] == (j, m);
        assert(f(cells[x]) == Some((key, a)));
        assert(f(cells[y]) == Some((key, b)));
        assert(groups.contains_key(key));
        assert(groups[key].contains(a) && groups[key].contains(b));
        assert(keys.to_set().contains(key));
        let n = choose|n: int| 0 <= n < keys.len() && keys[n] == key;
        assert(g(keys[n]).contains((a, (b, kind))));
    }
}

/// The edges along which the need to be public spreads.
proof fn lemma_interface_edges(world: WorldView, a: GraphState, b: GraphState, kind: ReferenceKind)
    requires
        countable(world),
    ensures
        world.interface_edges().contains((a, (b, kind))) <==> (kind != ReferenceKind::Body
            && exists|i: usize, k: usize| #[trigger]
            leads(world, i, k, a, b) && reference_at(world, i, k).kind == kind) || (kind
            == ReferenceKind::Interface && a != b && share_visibility(world, a, b)),
{
    let list = world.edge_list();
    let f = interface_edge();
    lemma_edge_list(world);
    lemma_twin_edges(world, a, b, kind);
    if world.declared_interface_edges().contains((a, (b, kind))) {
        let n = choose|n: int| 0 <= n < list.len() && f(#[trigger] list[n]) == Some((a, (b, kind)));
        let edge = list[n];
        assert(list.contains(edge));
        law_edges_are_recorded_references(world, edge);
        assert(leads(world, edge.invocation, edge.reference, a, b));
    }
    if kind != ReferenceKind::Body && exists|i: usize, k: usize| #[trigger]
        leads(world, i, k, a, b) && reference_at(world, i, k).kind == kind {
        let (i, k) = choose|i: usize, k: usize| #[trigger]
            leads(world, i, k, a, b) && reference_at(world, i, k).kind == kind;
        let edge = ReferenceEdge { from: a, to: b, kind, invocation: i, reference: k };
        law_edges_are_recorded_references(world, edge);
        assert(list.contains(edge));
        let n = choose|n: int| 0 <= n < list.len() && list[n] == edge;
        assert(f(list[n]) == Some((a, (b, kind))));
    }
}

/// The steps along which the need to be public spreads.
proof fn lemma_public_steps(
    world: WorldView,
    a: GraphState,
    before: bool,
    b: GraphState,
    after: bool,
)
    requires
        countable(world),
    ensures
        spread_steps(world.interface_edges()).contains(((a, before), (b, after))) <==> before
            == after && makes_public(world, a, b, before),
{
    let edges = world.interface_edges();
    let list = ascending::<(GraphState, (GraphState, ReferenceKind))>(edges);
    let step = ((a, before), (b, after));
    lemma_links_finite(edges);
    lemma_ascending_exists::<(GraphState, (GraphState, ReferenceKind))>(edges);
    if spread_steps(edges).contains(step) {
        if image(list, step_with_parents()).contains(step) {
            let n = choose|n: int|
                0 <= n < list.len() && step_with_parents()(#[trigger] list[n]) == Some(step);
            assert(list.to_set().contains(list[n]));
            lemma_interface_edges(world, a, b, (list[n].1).1);
            lemma_interface_edge_makes_public(world, a, b, (list[n].1).1, true);
        } else {
            let n = choose|n: int|
                0 <= n < list.len() && step_without_parents()(#[trigger] list[n]) == Some(step);
            assert(list.to_set().contains(list[n]));
            lemma_interface_edges(world, a, b, (list[n].1).1);
            lemma_interface_edge_makes_public(world, a, b, (list[n].1).1, false);
        }
    }
    if before == after && makes_public(world, a, b, before) {
        let kind = if a != b && share_visibility(world, a, b) {
            ReferenceKind::Interface
        } else {
            let (i, k) = choose|i: usize, k: usize| #[trigger]
                leads(world, i, k, a, b) && match reference_at(world, i, k).kind {
                    ReferenceKind::Interface
                    | ReferenceKind::Reexport
                    | ReferenceKind::VisibilityRequirement => true,
                    ReferenceKind::VisibilityParent => before,
                    ReferenceKind::Body => false,
                };
            assert(leads(world, i, k, a, b));
            reference_at(world, i, k).kind
        };
        lemma_interface_edges(world, a, b, kind);
        assert(edges.contains((a, (b, kind))));
        assert(list.to_set().contains((a, (b, kind))));
        let n = choose|n: int| 0 <= n < list.len() && list[n] == (a, (b, kind));
        if before {
            assert(step_with_parents()(list[n]) == Some(step));
        } else {
            assert(step_without_parents()(list[n]) == Some(step));
        }
    }
}

/// An edge of an interface makes what it leads to public.
proof fn lemma_interface_edge_makes_public(
    world: WorldView,
    a: GraphState,
    b: GraphState,
    kind: ReferenceKind,
    modules: bool,
)
    requires
        countable(world),
        world.interface_edges().contains((a, (b, kind))),
        modules || kind != ReferenceKind::VisibilityParent,
    ensures
        makes_public(world, a, b, modules),
{
    lemma_interface_edges(world, a, b, kind);
    if !(a != b && share_visibility(world, a, b)) {
        let (i, k) = choose|i: usize, k: usize| #[trigger]
            leads(world, i, k, a, b) && reference_at(world, i, k).kind == kind;
        assert(leads(world, i, k, a, b));
    }
}

/// Where the need to be public starts.
proof fn lemma_public_starts(world: WorldView, s: GraphState, modules: bool)
    requires
        countable(world),
    ensures
        spread_starts(world.initially_required()).contains((s, modules)) <==> modules
            == needs_modules(world, s) && exists|reason: Seq<char>| #[trigger]
            called_for(world, s, reason),
{
    let required = world.initially_required();
    let list = ascending::<GraphState>(required.dom());
    let f = |state: GraphState| Some((state, follows_parents(required[state])));
    lemma_states_finite(required.dom());
    lemma_ascending_exists::<GraphState>(required.dom());
    lemma_called_for(world, s);
    assert(spread_starts(required) == image(list, f));
    if required.contains_key(s) {
        assert(group_at(required, s) == required[s]);
        if needs_modules(world, s) {
            let reason = choose|reason: Seq<char>| #[trigger]
                called_for(world, s, reason) && reason
                    != "a public reexport requires this local target to remain public"@;
            assert(required[s].contains(reason));
            assert(follows_parents(required[s]));
        }
        if follows_parents(required[s]) {
            let reason = choose|reason: Seq<char>| #[trigger]
                required[s].contains(reason) && reason
                    != "a public reexport requires this local target to remain public"@;
            assert(called_for(world, s, reason));
        }
        assert(list.to_set().contains(s));
        let n = choose|n: int| 0 <= n < list.len() && list[n] == s;
        assert(f(list[n]) == Some((s, needs_modules(world, s))));
    }
    if image(list, f).contains((s, modules)) {
        let n = choose|n: int| 0 <= n < list.len() && f(#[trigger] list[n]) == Some((s, modules));
        assert(list.to_set().contains(list[n]));
    }
}

/// What the need to be public reaches is what is needed.
proof fn lemma_needed(world: WorldView)
    requires
        countable(world),
    ensures
        forall|s: GraphState, modules: bool|
            reach(
                spread_starts(world.initially_required()),
                spread_steps(world.interface_edges()),
            ).contains((s, modules)) <==> #[trigger] needed(world, s, modules),
        keeps_public(
            world,
            reach(
                spread_starts(world.initially_required()),
                spread_steps(world.interface_edges()),
            ),
        ),
{
    let first = spread_starts(world.initially_required());
    let edges = spread_steps(world.interface_edges());
    let reached = reach(first, edges);
    law_reach_is_closed(first, edges);
    assert(keeps_public(world, reached)) by {
        assert forall|s: GraphState, reason: Seq<char>| #[trigger]
            called_for(world, s, reason) implies reached.contains((s, needs_modules(world, s))) by {
            lemma_public_starts(world, s, needs_modules(world, s));
        }
        assert forall|a: GraphState, b: GraphState, modules: bool| #[trigger]
            makes_public(world, a, b, modules) && reached.contains(
                (a, modules),
            ) implies reached.contains((b, modules)) by {
            lemma_public_steps(world, a, modules, b, modules);
            assert(edges.contains(((a, modules), (b, modules))));
        }
    }
    assert forall|s: GraphState, modules: bool|
        reached.contains((s, modules)) <==> #[trigger] needed(world, s, modules) by {
        if reached.contains((s, modules)) {
            assert forall|places: Set<(GraphState, bool)>| #[trigger]
                keeps_public(world, places) implies places.contains((s, modules)) by {
                assert forall|p: (GraphState, bool)| first.contains(p) implies places.contains(
                    p,
                ) by {
                    lemma_public_starts(world, p.0, p.1);
                    let reason = choose|reason: Seq<char>| #[trigger]
                        called_for(world, p.0, reason);
                    assert(called_for(world, p.0, reason));
                }
                assert forall|p: (GraphState, bool), q: (GraphState, bool)|
                    places.contains(p) && #[trigger] edges.contains((p, q)) implies places.contains(
                    q,
                ) by {
                    lemma_public_steps(world, p.0, p.1, q.0, q.1);
                    assert(makes_public(world, p.0, q.0, p.1));
                    assert(places.contains((p.0, p.1)));
                }
                law_reach_is_least(first, edges, places);
            }
        }
    }
}

/// What has to be public is found, with its reasons, and nothing else: a state has to be public
/// just where it cannot be left out while everything is kept that roots and other crates call for
/// and all that this makes public.
pub proof fn law_required_states_are_what_has_to_be_public(
    world: WorldView,
    s: GraphState,
    reason: Seq<char>,
)
    requires
        countable(world),
    ensures
        world.required_states().contains_key(s) <==> must_be_public(world, s),
        group_at(world.required_states(), s).contains(reason) <==> justified(world, s, reason),
{
    let first = spread_starts(world.initially_required());
    let edges = spread_steps(world.interface_edges());
    let visited = reach(first, edges);
    let list = ascending::<((GraphState, bool), (GraphState, bool))>(edges);
    let f = step_requirement(visited);
    let spread_on = grouped(list, f);
    let told = "required by a public interface or visibility edge"@;
    lemma_steps_finite(edges);
    lemma_ascending_exists::<((GraphState, bool), (GraphState, bool))>(edges);
    lemma_needed(world);
    lemma_called_for(world, s);
    law_reach_is_closed(first, edges);
    assert(spread_on.contains_key(s) <==> exists|a: GraphState, modules: bool| #[trigger]
        makes_public(world, a, s, modules) && needed(world, a, modules)) by {
        if spread_on.contains_key(s) {
            let n = choose|n: int|
                0 <= n < list.len() && f(#[trigger] list[n]) is Some && (f(list[n])->0).0 == s;
            let step = list[n];
            assert(list.to_set().contains(step));
            let (p, q) = step;
            lemma_public_steps(world, p.0, p.1, q.0, q.1);
            assert(visited.contains((p.0, p.1)));
            assert(needed(world, p.0, p.1));
            assert(makes_public(world, p.0, s, p.1));
        }
        if exists|a: GraphState, modules: bool| #[trigger]
            makes_public(world, a, s, modules) && needed(world, a, modules) {
            let (a, modules) = choose|a: GraphState, modules: bool| #[trigger]
                makes_public(world, a, s, modules) && needed(world, a, modules);
            lemma_public_steps(world, a, modules, s, modules);
            let step = ((a, modules), (s, modules));
            assert(visited.contains((a, modules)));
            assert(list.to_set().contains(step));
            let n = choose|n: int| 0 <= n < list.len() && list[n] == step;
            assert(f(list[n]) == Some((s, told)));
        }
    }
    assert(group_at(spread_on, s).contains(reason) <==> reason == told && spread_on.contains_key(s))
    by {
        if spread_on.contains_key(s) {
            let n = choose|n: int|
                0 <= n < list.len() && f(#[trigger] list[n]) is Some && (f(list[n])->0).0 == s;
            assert(f(list[n]) == Some((s, told)));
            assert(spread_on[s].contains(told));
        }
    }
    if must_be_public(world, s) {
        let modules = needed(world, s, true);
        assert(visited.contains((s, modules)));
        lemma_last_step(world, s, modules);
    }
    if called_for(world, s, reason) {
        lemma_public_starts(world, s, needs_modules(world, s));
        assert(visited.contains((s, needs_modules(world, s))));
        assert(needed(world, s, needs_modules(world, s)));
    }
    if world.initially_required().contains_key(s) {
        lemma_public_starts(world, s, needs_modules(world, s));
        assert(visited.contains((s, needs_modules(world, s))));
        assert(needed(world, s, needs_modules(world, s)));
    }
    if exists|a: GraphState, modules: bool| #[trigger]
        makes_public(world, a, s, modules) && needed(world, a, modules) {
        let (a, modules) = choose|a: GraphState, modules: bool| #[trigger]
            makes_public(world, a, s, modules) && needed(world, a, modules);
        assert(visited.contains((a, modules)));
        assert(visited.contains((s, modules)));
        assert(needed(world, s, modules));
    }
}

/// What is needed has to be public by itself, or something needed makes it so.
proof fn lemma_last_step(world: WorldView, s: GraphState, modules: bool)
    requires
        countable(world),
        needed(world, s, modules),
    ensures
        (exists|reason: Seq<char>| #[trigger] called_for(world, s, reason)) || exists|
            a: GraphState,
            flag: bool,
        | #[trigger] makes_public(world, a, s, flag) && needed(world, a, flag),
{
    if !((exists|reason: Seq<char>| #[trigger] called_for(world, s, reason)) || exists|
        a: GraphState,
        flag: bool,
    | #[trigger] makes_public(world, a, s, flag) && needed(world, a, flag)) {
        lemma_needed(world);
        let visited = reach(
            spread_starts(world.initially_required()),
            spread_steps(world.interface_edges()),
        );
        let less = visited.remove((s, modules));
        assert forall|t: GraphState, reason: Seq<char>| #[trigger]
            called_for(world, t, reason) implies less.contains((t, needs_modules(world, t))) by {
            assert(visited.contains((t, needs_modules(world, t))));
        }
        assert forall|a: GraphState, b: GraphState, flag: bool| #[trigger]
            makes_public(world, a, b, flag) && less.contains((a, flag)) implies less.contains(
            (b, flag),
        ) by {
            assert(visited.contains((b, flag)));
            assert(needed(world, a, flag));
        }
        assert(keeps_public(world, less));
        assert(less.contains((s, modules)));
    }
}

/// A definition has to be public, for a reason, just where one of its states has to be.
pub proof fn law_required_definitions_are_what_has_to_be_public(
    world: WorldView,
    node: usize,
    reason: Seq<char>,
)
    requires
        countable(world),
    ensures
        world.required_nodes().contains_key(node) <==> exists|s: GraphState| #[trigger]
            must_be_public(world, s) && s.node == node,
        group_at(world.required_nodes(), node).contains(reason) <==> exists|s: GraphState| #[trigger]
            justified(world, s, reason) && s.node == node,
{
    let states = world.required_states();
    assert(world.required_nodes() == by_node(states));
    if world.required_nodes().contains_key(node) {
        let (s, r) = choose|s: GraphState, r: Seq<char>|
            states.dom().contains(s) && #[trigger] states[s].contains(r) && s.node == node;
        law_required_states_are_what_has_to_be_public(world, s, r);
        assert(must_be_public(world, s));
    }
    if exists|s: GraphState| #[trigger] must_be_public(world, s) && s.node == node {
        let s = choose|s: GraphState| #[trigger] must_be_public(world, s) && s.node == node;
        lemma_last_step(world, s, needed(world, s, true));
        let r = if exists|r: Seq<char>| #[trigger] called_for(world, s, r) {
            choose|r: Seq<char>| #[trigger] called_for(world, s, r)
        } else {
            "required by a public interface or visibility edge"@
        };
        law_required_states_are_what_has_to_be_public(world, s, r);
        assert(states[s].contains(r));
    }
    if group_at(world.required_nodes(), node).contains(reason) {
        let s = choose|s: GraphState|
            states.dom().contains(s) && #[trigger] states[s].contains(reason) && s.node == node;
        law_required_states_are_what_has_to_be_public(world, s, reason);
        assert(justified(world, s, reason));
    }
    if exists|s: GraphState| #[trigger] justified(world, s, reason) && s.node == node {
        let s = choose|s: GraphState| #[trigger] justified(world, s, reason) && s.node == node;
        law_required_states_are_what_has_to_be_public(world, s, reason);
        assert(states.dom().contains(s) && states[s].contains(reason));
    }
}

/// What a required state shows to others is required with it: what its interface names, what it
/// reexports and what its visibility requires, and the module around it where it is required for
/// more than a reexport.
pub proof fn law_references_of_required_code_are_required(
    world: WorldView,
    i: usize,
    k: usize,
    a: GraphState,
    b: GraphState,
)
    requires
        countable(world),
        leads(world, i, k, a, b),
        world.required_states().contains_key(a),
    ensures
        reference_at(world, i, k).kind == ReferenceKind::Interface || reference_at(
            world,
            i,
            k,
        ).kind == ReferenceKind::Reexport || reference_at(world, i, k).kind
            == ReferenceKind::VisibilityRequirement ==> world.required_states().contains_key(b)
            && world.required_nodes().contains_key(b.node),
        reference_at(world, i, k).kind == ReferenceKind::VisibilityParent && needed(world, a, true)
            ==> world.required_states().contains_key(b) && world.required_nodes().contains_key(
            b.node,
        ),
        needs_modules(world, a) ==> needed(world, a, true),
{
    law_required_states_are_what_has_to_be_public(world, a, Seq::empty());
    law_required_states_are_what_has_to_be_public(world, b, Seq::empty());
    law_required_definitions_are_what_has_to_be_public(world, b.node, Seq::empty());
    lemma_needed(world);
    let modules = needed(world, a, true);
    assert(needed(world, a, modules));
    let reached = reach(
        spread_starts(world.initially_required()),
        spread_steps(world.interface_edges()),
    );
    if match reference_at(world, i, k).kind {
        ReferenceKind::Interface
        | ReferenceKind::Reexport
        | ReferenceKind::VisibilityRequirement => true,
        ReferenceKind::VisibilityParent => modules,
        ReferenceKind::Body => false,
    } {
        assert(makes_public(world, a, b, modules));
        assert(reached.contains((a, modules)));
        assert(reached.contains((b, modules)));
        assert(needed(world, b, modules));
        assert(must_be_public(world, b));
    }
    if needs_modules(world, a) {
        let reason = choose|reason: Seq<char>| #[trigger]
            called_for(world, a, reason) && reason
                != "a public reexport requires this local target to remain public"@;
        assert(called_for(world, a, reason));
        assert(reached.contains((a, true)));
    }
}

/// Places come row by row, and in each row in order.
proof fn lemma_cells_ordered(lengths: Seq<usize>, x: int, y: int)
    requires
        lengths.len() <= usize::MAX,
        0 <= x < y < cells(lengths).len(),
    ensures
        cells(lengths)[x].0 < cells(lengths)[y].0 || (cells(lengths)[x].0 == cells(lengths)[y].0
            && cells(lengths)[x].1 < cells(lengths)[y].1),
    decreases lengths.len(),
{
    let short = lengths.drop_last();
    let last = (lengths.len() - 1) as usize;
    let tail = Seq::new(lengths.last() as nat, |i: int| (last, i as usize));
    assert(cells(lengths) == cells(short) + tail);
    let cut = cells(short).len() as int;
    lemma_cells(short);
    if y < cut {
        lemma_cells_ordered(short, x, y);
    } else if x < cut {
        assert(cells(lengths)[x] == cells(short)[x]);
        assert(cells(lengths)[y] == tail[y - cut]);
    } else {
        assert(cells(lengths)[x] == tail[x - cut]);
        assert(cells(lengths)[y] == tail[y - cut]);
    }
}

/// Whether two targets are one target of one package, whatever they are compiled for.
pub open spec fn one_target(
    world: WorldView,
    a: CompilerTargetReportView,
    b: CompilerTargetReportView,
) -> bool {
    &&& a.package_id == b.package_id
    &&& a.name == b.name
    &&& canonical_key(world.places.canonical, a.source) == canonical_key(
        world.places.canonical,
        b.source,
    )
    &&& a.kinds.to_set() == b.kinds.to_set()
    &&& a.crate_types.to_set() == b.crate_types.to_set()
}

/// Whether two recorded definitions are one: they have one path and kind and stand at one place of
/// one target; where a place is unknown, an invocation has one definition of an identity.
pub open spec fn one_definition(world: WorldView, i: usize, k: usize, j: usize, m: usize) -> bool {
    let a = definition_at(world, i, k);
    let b = definition_at(world, j, m);
    match (place_of(world, i, k), place_of(world, j, m)) {
        (Some(x), Some(y)) => x == y && a.definition_path == b.definition_path && a.kind == b.kind
            && one_target(
            world,
            world.invocations[i as int].target,
            world.invocations[j as int].target,
        ),
        (None, None) => i == j && a.compiler_id == b.compiler_id,
        _ => false,
    }
}

/// Two words are the same in sorted order just where they are the same words.
pub proof fn lemma_same_words(a: Seq<Seq<char>>, b: Seq<Seq<char>>)
    ensures
        ascending::<String>(a.to_set()) == ascending::<String>(b.to_set()) <==> a.to_set()
            == b.to_set(),
{
    vstd::seq_lib::seq_to_set_is_finite(a);
    vstd::seq_lib::seq_to_set_is_finite(b);
    lemma_ascending_exists::<String>(a.to_set());
    lemma_ascending_exists::<String>(b.to_set());
}

/// Recorded definitions share a node of the graph just where they are one definition; every
/// definition is in its node, and a node holds nothing else.
pub proof fn law_nodes_gather_definitions(world: WorldView, i: usize, k: usize, j: usize, m: usize)
    requires
        countable(world),
        world.definition_cells().len() <= usize::MAX,
        i < world.invocations.len(),
        k < world.invocations[i as int].invocation.definitions.len(),
        j < world.invocations.len(),
        m < world.invocations[j as int].invocation.definitions.len(),
    ensures
        world.node_of((i, k)) < world.nodes().len(),
        world.nodes()[world.node_of((i, k)) as int].contains((i, k)),
        world.node_of((i, k)) == world.node_of((j, m)) <==> one_definition(world, i, k, j, m),
        forall|node: int| #![trigger world.nodes()[node]]
            0 <= node < world.nodes().len() && world.nodes()[node].contains((i, k)) ==> node
                == world.node_of((i, k)),
{
    let all = world.definition_cells();
    let keys = world.node_keys();
    lemma_definition_places(world);
    assert(all.contains((i, k)) && all.contains((j, m)));
    let x = choose|x: int| 0 <= x < all.len() && all[x] == (i, k);
    let y = choose|y: int| 0 <= y < all.len() && all[y] == (j, m);
    world.lemma_key_place(x, all.len() as int);
    world.lemma_key_place(y, all.len() as int);
    world.lemma_keys_grow(0, all.len() as int);
    lemma_same_words(
        world.invocations[i as int].target.kinds,
        world.invocations[j as int].target.kinds,
    );
    lemma_same_words(
        world.invocations[i as int].target.crate_types,
        world.invocations[j as int].target.crate_types,
    );
    assert(world.key((i, k)) == world.key((j, m)) <==> one_definition(world, i, k, j, m));
    let node = world.node_of((i, k)) as int;
    assert(keys[node] == world.key((i, k)));
    lemma_collected_whole_place(world, node, x);
    assert forall|other: int| #![trigger world.nodes()[other]]
        0 <= other < world.nodes().len() && world.nodes()[other].contains((i, k)) implies other
        == node by {
        assert(all.take(all.len() as int) =~= all);
        world.lemma_members(other, all.len() as int);
        let members = world.members(other);
        let z = choose|z: int| 0 <= z < members.len() && members[z] == (i, k);
        assert(world.key(members[z]) == keys[other]);
    }
}

/// A definition with the key of a node is among its members.
proof fn lemma_collected_whole_place(world: WorldView, node: int, x: int)
    requires
        0 <= node < world.node_keys().len(),
        0 <= x < world.definition_cells().len(),
        world.key(world.definition_cells()[x]) == world.node_keys()[node],
    ensures
        world.members(node).contains(world.definition_cells()[x]),
{
    lemma_kept(world.definition_cells(), world.member_of(world.node_keys()[node]), x);
}

/// What a function yields on an element is collected.
pub proof fn lemma_kept<A, B>(s: Seq<A>, f: spec_fn(A) -> Option<B>, x: int)
    requires
        0 <= x < s.len(),
        f(s[x]) is Some,
    ensures
        collected(s, f).contains(f(s[x])->0),
    decreases s.len(),
{
    let count = s.len() - 1;
    lemma_collected_step(s, f, count);
    assert(s.take(s.len() as int) =~= s);
    let before = collected(s.take(count), f);
    let after = collected(s, f);
    if x == count {
        assert(after[after.len() - 1] == f(s[x])->0);
    } else {
        let short = s.take(count);
        assert(short[x] == s[x]);
        lemma_kept(short, f, x);
        let z = choose|z: int| 0 <= z < before.len() && before[z] == f(s[x])->0;
        assert(after[z] == before[z]);
    }
}

/// The node of an identity is that of its last definition.
proof fn lemma_local_node(world: WorldView, count: int, i: usize, id: CompilerDefId) -> (x: int)
    requires
        0 <= count <= world.definition_cells().len(),
    ensures
        world.local_nodes_of(count).contains_key((i, id)) <==> exists|y: int|
            0 <= y < count && (#[trigger] world.definition_cells()[y]).0 == i && world.definition(
                world.definition_cells()[y],
            ).compiler_id == id,
        world.local_nodes_of(count).contains_key((i, id)) ==> {
            &&& 0 <= x < count
            &&& world.definition_cells()[x].0 == i
            &&& world.definition(world.definition_cells()[x]).compiler_id == id
            &&& world.local_nodes_of(count)[(i, id)] == world.node_of(world.definition_cells()[x])
            &&& forall|y: int|
                x < y < count && (#[trigger] world.definition_cells()[y]).0 == i
                    ==> world.definition(world.definition_cells()[y]).compiler_id != id
        },
    decreases count,
{
    if count <= 0 {
        0
    } else {
        let before = lemma_local_node(world, count - 1, i, id);
        let cell = world.definition_cells()[count - 1];
        if cell.0 == i && world.definition(cell).compiler_id == id {
            count - 1
        } else {
            before
        }
    }
}

/// An identity has a state in an invocation just where the invocation defines it; that state is of
/// the last such definition.
pub proof fn law_identities_have_states(world: WorldView, i: usize, id: CompilerDefId)
    requires
        countable(world),
    ensures
        local_state(world.local_nodes(), i, id) is Some <==> i < world.invocations.len() && exists|
            k: usize,
        |
            k < world.invocations[i as int].invocation.definitions.len() && (
            #[trigger] definition_at(world, i, k)).compiler_id == id,
        local_state(world.local_nodes(), i, id) matches Some(s) ==> s.invocation == i && exists|
            k: usize,
        |
            k < world.invocations[i as int].invocation.definitions.len() && (
            #[trigger] definition_at(world, i, k)).compiler_id == id && s.node == world.node_of(
                (i, k),
            ) && forall|later: usize|
                k < later < world.invocations[i as int].invocation.definitions.len() ==> (
                #[trigger] definition_at(world, i, later)).compiler_id != id,
{
    let all = world.definition_cells();
    lemma_definition_places(world);
    let x = lemma_local_node(world, all.len() as int, i, id);
    if world.local_nodes().contains_key((i, id)) {
        let k = all[x].1;
        assert(definition_at(world, i, k).compiler_id == id);
        assert forall|later: usize|
            k < later < world.invocations[i as int].invocation.definitions.len() implies (
        #[trigger] definition_at(world, i, later)).compiler_id != id by {
            assert(all.contains((i, later)));
            let y = choose|y: int| 0 <= y < all.len() && all[y] == (i, later);
            if y < x {
                lemma_cells_ordered(definition_counts(world.invocations), y, x);
            }
        }
    }
    if i < world.invocations.len() && exists|k: usize|
        k < world.invocations[i as int].invocation.definitions.len() && (
        #[trigger] definition_at(world, i, k)).compiler_id == id {
        let k = choose|k: usize|
            k < world.invocations[i as int].invocation.definitions.len() && (
            #[trigger] definition_at(world, i, k)).compiler_id == id;
        assert(all.contains((i, k)));
        let y = choose|y: int| 0 <= y < all.len() && all[y] == (i, k);
        assert(all[y].0 == i && world.definition(all[y]).compiler_id == id);
    }
}

/// What a reference names stands for the definition of the same invocation where there is one,
/// and otherwise for all definitions of other invocations, unless these disagree.
pub proof fn law_references_stay_close(world: WorldView, i: usize, id: CompilerDefId)
    ensures
        ({
            let local = world.local_nodes();
            let targets = targets_of(local, i, id);
            &&& local_state(local, i, id) matches Some(own) ==> targets is Some && forall|s: GraphState|
             #[trigger] targets->0.contains(s) <==> s == own
            &&& local_state(local, i, id) is None && targets is Some ==> forall|s: GraphState| #[trigger]
                targets->0.contains(s) <==> local_state(local, s.invocation, id) == Some(s)
            &&& targets is None <==> local_state(local, i, id) is None && exists|
                a: GraphState,
                b: GraphState,
            |
                #![trigger local_state(local, a.invocation, id), local_state(local, b.invocation, id)]
                local_state(local, a.invocation, id) == Some(a) && local_state(
                    local,
                    b.invocation,
                    id,
                ) == Some(b) && a.node != b.node
        }),
{
    let local = world.local_nodes();
    let all = global_states(local, id);
    if exists|a: GraphState, b: GraphState|
        #![trigger local_state(local, a.invocation, id), local_state(local, b.invocation, id)]
        local_state(local, a.invocation, id) == Some(a) && local_state(local, b.invocation, id)
            == Some(b) && a.node != b.node {
        let (a, b) = choose|a: GraphState, b: GraphState|
            #![trigger local_state(local, a.invocation, id), local_state(local, b.invocation, id)]
            local_state(local, a.invocation, id) == Some(a) && local_state(local, b.invocation, id)
                == Some(b) && a.node != b.node;
        assert(all.contains(a) && all.contains(b));
    }
    if targets_of(local, i, id) is None {
        let (a, b) = choose|a: GraphState, b: GraphState| #[trigger]
            all.contains(a) && #[trigger] all.contains(b) && a.node != b.node;
        assert(local_state(local, a.invocation, id) == Some(a));
        assert(local_state(local, b.invocation, id) == Some(b));
    }
}

} // verus!
