//! What conclusions and answers about single declarations say of what was recorded.

use vstd::prelude::*;

use crate::collections::{
    ascending, collected, image, lemma_ascending_exists, lemma_collected_member,
    lemma_image_finite, lemma_stable_sorted, lemma_stable_sorted_member, second, stable_sorted,
    without_repeats,
};
use crate::compiler::closed_world::{aggregation_of, optional_span};
use crate::compiler::consumers::{backwards, consumers, law_searches_find_shortest_ways, visits};
use crate::compiler::declarations::{compiled_class, ImpactQueryView};
use crate::compiler::finding_laws::{
    belongs, finding_is_on, law_dispositions_say_what_is_so, lemma_members, manageable, meant,
};
use crate::compiler::graph::{
    local_state, optional_identity, selected_crate, targets_of, WorldView,
};
use crate::compiler::graph_keys::{
    GraphState, PhysicalDeclarationKey, PhysicalDeclarationKeyView, ReferenceEdge,
    SpanIdentityView,
};
use crate::compiler::impact::{impact_report_of, selected_impact_of};
use crate::compiler::reach::{is_walk, steps};
use crate::compiler::world_laws::{
    countable, definition_at, law_edges_are_recorded_references, leads, lemma_edge_list,
    lemma_edges_finite, lemma_kept, lemma_reference_cells, lemma_root_cells, lemma_same_words,
    lemma_states_finite, one_target, recorded, reference_at, root_at,
};
use crate::model::{
    CompilerTargetReportView, ImpactProvenanceClass, ImpactReferenceReport,
    ImpactReferenceReportView, ImpactVisibilityDisposition, SemanticStatus,
};
use crate::order::Ordered;
use crate::paths::portable_path;

verus! {

/// Whether everything that was recorded has its place in the graph: roots and sources of references
/// are defined where they were recorded; targets of references are unambiguous, and defined where
/// their crate is among the selected ones.
pub open spec fn closed(world: WorldView) -> bool {
    let local = world.local_nodes();
    &&& forall|i: usize, k: usize|
        i < world.invocations.len() && k < world.invocations[i as int].invocation.roots.len()
            ==> local_state(local, i, (#[trigger] root_at(world, i, k)).definition) is Some
    &&& forall|i: usize, k: usize| #[trigger]
        recorded(world, i, k) ==> {
            let reference = reference_at(world, i, k);
            &&& local_state(local, i, reference.from) is Some
            &&& targets_of(local, i, reference.to) matches Some(targets) && (selected_crate(
                local,
                reference.to.stable_crate_id,
            ) ==> exists|s: GraphState| #[trigger] targets.contains(s))
        }
}

/// Nothing keeps the graph from being closed just where everything has its place.
pub proof fn law_graph_errors_are_what_has_no_place(world: WorldView)
    requires
        countable(world),
    ensures
        world.errors() == Set::<Seq<char>>::empty() <==> closed(world),
{
    let roots = world.root_cells();
    let references = world.reference_cells();
    let f = world.root_error();
    let g = world.reference_error();
    lemma_root_cells(world);
    lemma_reference_cells(world);
    if closed(world) {
        assert forall|error: Seq<char>| !world.errors().contains(error) by {
            if image(roots, f).contains(error) {
                let n = choose|n: int| 0 <= n < roots.len() && f(#[trigger] roots[n]) == Some(error);
                assert(root_at(world, roots[n].0, roots[n].1).definition == world.root(
                    roots[n],
                ).definition);
            }
            if image(references, g).contains(error) {
                let n = choose|n: int|
                    0 <= n < references.len() && g(#[trigger] references[n]) == Some(error);
                assert(recorded(world, references[n].0, references[n].1));
            }
        }
        assert(world.errors() =~= Set::<Seq<char>>::empty());
    }
    if world.errors() == Set::<Seq<char>>::empty() {
        assert forall|i: usize, k: usize|
            i < world.invocations.len() && k
                < world.invocations[i as int].invocation.roots.len() implies local_state(
            world.local_nodes(),
            i,
            (#[trigger] root_at(world, i, k)).definition,
        ) is Some by {
            assert(roots.contains((i, k)));
            let n = choose|n: int| 0 <= n < roots.len() && roots[n] == (i, k);
            if let Some(error) = f(roots[n]) {
                assert(world.errors().contains(error));
            }
        }
        assert forall|i: usize, k: usize| #[trigger] recorded(world, i, k) implies {
            let reference = reference_at(world, i, k);
            &&& local_state(world.local_nodes(), i, reference.from) is Some
            &&& targets_of(world.local_nodes(), i, reference.to) matches Some(targets) && (
            selected_crate(world.local_nodes(), reference.to.stable_crate_id) ==> exists|
                s: GraphState,
            | #[trigger] targets.contains(s))
        } by {
            assert(references.contains((i, k)));
            let n = choose|n: int| 0 <= n < references.len() && references[n] == (i, k);
            if let Some(error) = g(references[n]) {
                assert(world.errors().contains(error));
            }
            if let Some(targets) = targets_of(
                world.local_nodes(),
                i,
                reference_at(world, i, k).to,
            ) {
                if !(exists|s: GraphState| #[trigger] targets.contains(s)) {
                    assert(targets =~= Set::<GraphState>::empty());
                }
            }
        }
    }
}

/// There are conclusions just where the facts are complete, of at least one invocation, and
/// everything has its place; they are the findings and requirements of the graph, with their
/// numbers.
pub proof fn law_conclusions_need_complete_evidence(
    world: WorldView,
    raw_status: SemanticStatus,
    query: Option<ImpactQueryView>,
)
    requires
        countable(world),
    ensures
        ({
            let said = aggregation_of(world, raw_status, query);
            let complete = raw_status == SemanticStatus::Complete && world.invocations.len() > 0
                && (forall|i: int|
                0 <= i < world.invocations.len() ==> (#[trigger] world.invocations[i]).status
                    == SemanticStatus::Complete) && closed(world);
            &&& said.status == SemanticStatus::Complete <==> complete
            &&& said.reason is None <==> complete
            &&& said.closed_world is Some <==> complete
            &&& said.required_visibility is Some <==> complete
            &&& said.impact is Some <==> query is Some
            &&& complete ==> said.closed_world->0.findings == world.findings()
                && said.required_visibility->0.definitions == world.requirements()
            &&& complete && query is Some ==> said.impact == Some(impact_report_of(world, query->0))
        }),
{
    reveal(aggregation_of);
    law_graph_errors_are_what_has_no_place(world);
}

/// Whether a recorded definition is what a query names: its package, its path and, where the query
/// names a place, its place in the sources or else the place that it is attributed to.
pub open spec fn named(world: WorldView, i: usize, k: usize, query: ImpactQueryView) -> bool {
    let input = world.invocations[i as int];
    let definition = definition_at(world, i, k);
    &&& input.owner == query.package
    &&& definition.definition_path == query.definition_path
    &&& query.location matches Some(location) ==> {
        let span = optional_span(
            world.places,
            input,
            if definition.span is Some {
                definition.span
            } else {
                definition.attribution_callsite
            },
        );
        &&& span is Some
        &&& portable_path(span->0.path) == portable_path(location.path)
        &&& span->0.line == location.line
        &&& span->0.column == location.column
    }
}

/// Where a recorded definition was written down, or what it is attributed to.
pub open spec fn written_at(world: WorldView, i: usize, k: usize) -> Option<SpanIdentityView> {
    optional_identity(
        world.places,
        world.invocations[i as int].invocation.sources,
        if definition_at(world, i, k).span is Some {
            definition_at(world, i, k).span
        } else {
            definition_at(world, i, k).attribution_callsite
        },
    )
}

/// Whether two recorded definitions come from one declaration of a package: they have one path and
/// were written down at one place, or where no place is known, belong to one target.
pub open spec fn one_declaration(world: WorldView, i: usize, k: usize, j: usize, m: usize) -> bool {
    let a = world.invocations[i as int].target;
    let b = world.invocations[j as int].target;
    &&& a.package_id == b.package_id
    &&& definition_at(world, i, k).definition_path == definition_at(world, j, m).definition_path
    &&& written_at(world, i, k) == written_at(world, j, m)
    &&& written_at(world, i, k) is None ==> one_target(world, a, b)
}

/// Whether a recorded definition is within a world and what a query names.
pub open spec fn matched(world: WorldView, i: usize, k: usize, query: ImpactQueryView) -> bool {
    &&& i < world.invocations.len()
    &&& k < world.invocations[i as int].invocation.definitions.len()
    &&& named(world, i, k, query)
}

proof fn lemma_one_declaration(world: WorldView, i: usize, k: usize, j: usize, m: usize)
    ensures
        world.physical_key((i, k)) == world.physical_key((j, m)) <==> one_declaration(
            world,
            i,
            k,
            j,
            m,
        ),
{
    lemma_same_words(
        world.invocations[i as int].target.kinds,
        world.invocations[j as int].target.kinds,
    );
    lemma_same_words(
        world.invocations[i as int].target.crate_types,
        world.invocations[j as int].target.crate_types,
    );
}

/// A query is asked about just the declarations of the definitions that it names, and about all
/// nodes of these declarations.
proof fn lemma_asked(world: WorldView, query: ImpactQueryView, i: usize, k: usize)
    requires
        manageable(world),
        i < world.invocations.len(),
        k < world.invocations[i as int].invocation.definitions.len(),
    ensures
        world.asked_keys(query).contains(world.physical_key((i, k))) <==> exists|j: usize, m: usize|
         #[trigger]
            matched(world, j, m, query) && one_declaration(world, i, k, j, m),
        world.asked(query).contains_key(world.physical_key((i, k))) <==> world.asked_keys(
            query,
        ).contains(world.physical_key((i, k))),
        world.asked_keys(query).contains(world.physical_key((i, k))) ==> forall|node: usize|
         #[trigger]
            world.asked(query)[world.physical_key((i, k))].contains(node) <==> exists|
                j: usize,
                m: usize,
            | #[trigger] belongs(world, j, m, node) && one_declaration(world, i, k, j, m),
{
    let places = world.member_cells();
    let f = world.asked_key(query);
    let keys = world.asked_keys(query);
    let g = world.asked_node(keys);
    let key = world.physical_key((i, k));
    lemma_members(world);
    if keys.contains(key) {
        let x = choose|x: int| 0 <= x < places.len() && f(#[trigger] places[x]) == Some(key);
        let (j, m) = world.member(places[x]);
        assert(belongs(world, j, m, places[x].0));
        lemma_one_declaration(world, i, k, j, m);
        assert(matched(world, j, m, query));
    }
    if exists|j: usize, m: usize| #[trigger]
        matched(world, j, m, query) && one_declaration(world, i, k, j, m) {
        let (j, m) = choose|j: usize, m: usize| #[trigger]
            matched(world, j, m, query) && one_declaration(world, i, k, j, m);
        let node = world.node_of((j, m));
        assert(belongs(world, j, m, node));
        let x = choose|x: int|
            0 <= x < places.len() && (#[trigger] places[x]).0 == node
                && world.nodes()[node as int][places[x].1 as int] == (j, m);
        lemma_one_declaration(world, i, k, j, m);
        assert(f(places[x]) == Some(key));
    }
    if keys.contains(key) {
        let own = world.node_of((i, k));
        assert(belongs(world, i, k, own));
        let x = choose|x: int|
            0 <= x < places.len() && (#[trigger] places[x]).0 == own
                && world.nodes()[own as int][places[x].1 as int] == (i, k);
        assert(g(places[x]) == Some((key, own)));
        assert(world.asked(query).contains_key(key));
        assert forall|node: usize| #[trigger]
            world.asked(query)[key].contains(node) <==> exists|j: usize, m: usize| #[trigger]
                belongs(world, j, m, node) && one_declaration(world, i, k, j, m) by {
            if world.asked(query)[key].contains(node) {
                let y = choose|y: int|
                    0 <= y < places.len() && g(#[trigger] places[y]) == Some((key, node));
                let (j, m) = world.member(places[y]);
                assert(belongs(world, j, m, node));
                lemma_one_declaration(world, i, k, j, m);
            }
            if exists|j: usize, m: usize| #[trigger]
                belongs(world, j, m, node) && one_declaration(world, i, k, j, m) {
                let (j, m) = choose|j: usize, m: usize| #[trigger]
                    belongs(world, j, m, node) && one_declaration(world, i, k, j, m);
                let y = choose|y: int|
                    0 <= y < places.len() && (#[trigger] places[y]).0 == node
                        && world.nodes()[node as int][places[y].1 as int] == (j, m);
                lemma_one_declaration(world, i, k, j, m);
                assert(g(places[y]) == Some((key, node)));
            }
        }
    }
    if world.asked(query).contains_key(key) {
        let x = choose|x: int|
            0 <= x < places.len() && g(#[trigger] places[x]) is Some && (g(places[x])->0).0 == key;
        assert(keys.contains(key));
    }
}

/// A query without a match, or with matches of several declarations, selects nothing; otherwise it
/// selects the nodes of the one declaration, and the answer says of their visibility what is so.
pub proof fn law_queries_select_one_declaration(
    world: WorldView,
    query: ImpactQueryView,
    i: usize,
    k: usize,
)
    requires
        manageable(world),
    ensures
        ({
            let answer = impact_report_of(world, query);
            let alone = forall|j: usize, m: usize| #[trigger]
                matched(world, j, m, query) ==> one_declaration(world, i, k, j, m);
            &&& (forall|j: usize, m: usize| !#[trigger] matched(world, j, m, query))
                ==> answer.status == SemanticStatus::Unavailable && answer.selected is None
                && answer.visibility_disposition is None && answer.summary is None
            &&& matched(world, i, k, query) ==> (answer.status == SemanticStatus::Complete
                <==> alone)
            &&& matched(world, i, k, query) && !alone ==> answer.status
                == SemanticStatus::Unavailable && answer.visibility_disposition is None
            &&& matched(world, i, k, query) && alone ==> {
                let nodes = Set::new(
                    |node: usize|
                        exists|j: usize, m: usize| #[trigger]
                            belongs(world, j, m, node) && one_declaration(world, i, k, j, m),
                );
                &&& answer == selected_impact_of(world, query, nodes)
                &&& answer.visibility_disposition == Some(world.disposition(nodes))
            }
        }),
{
    let asked = world.asked(query);
    let keys = ascending::<PhysicalDeclarationKey>(asked.dom());
    let places = world.member_cells();
    let f = world.asked_key(query);
    lemma_members(world);
    lemma_image_finite(places, f);
    assert forall|key: PhysicalDeclarationKeyView| asked.dom().contains(key) implies image(
        places,
        f,
    ).contains(key) by {}
    vstd::set_lib::lemma_set_subset_finite(image(places, f), asked.dom());
    lemma_ascending_exists::<PhysicalDeclarationKey>(asked.dom());
    assert forall|key: PhysicalDeclarationKeyView| #[trigger]
        keys.contains(key) implies exists|j: usize, m: usize| #[trigger]
        matched(world, j, m, query) && key == world.physical_key((j, m)) by {
        assert(keys.to_set().contains(key));
        let x = choose|x: int| 0 <= x < places.len() && f(#[trigger] places[x]) == Some(key);
        let (j, m) = world.member(places[x]);
        assert(belongs(world, j, m, places[x].0));
        assert(matched(world, j, m, query));
    }
    assert forall|j: usize, m: usize| #[trigger] matched(world, j, m, query) implies keys.contains(
        world.physical_key((j, m)),
    ) by {
        lemma_asked(world, query, j, m);
        lemma_one_declaration(world, j, m, j, m);
        assert(keys.to_set().contains(world.physical_key((j, m))));
    }
    if forall|j: usize, m: usize| !#[trigger] matched(world, j, m, query) {
        if keys.len() > 0 {
            assert(keys.contains(keys[0]));
        }
    }
    if matched(world, i, k, query) {
        let key = world.physical_key((i, k));
        assert(keys.contains(key));
        let at = choose|at: int| 0 <= at < keys.len() && keys[at] == key;
        let alone = forall|j: usize, m: usize| #[trigger]
            matched(world, j, m, query) ==> one_declaration(world, i, k, j, m);
        if alone {
            if keys.len() > 1 {
                let other = keys[if at == 0 {
                    1
                } else {
                    0
                }];
                assert(keys.contains(other));
                let (j, m) = choose|j: usize, m: usize| #[trigger]
                    matched(world, j, m, query) && other == world.physical_key((j, m));
                lemma_one_declaration(world, i, k, j, m);
                assert(other == key);
                if at == 0 {
                    PhysicalDeclarationKey::irreflexive(key);
                    assert(PhysicalDeclarationKey::precedes(keys[0], keys[1]));
                } else {
                    PhysicalDeclarationKey::irreflexive(key);
                    assert(PhysicalDeclarationKey::precedes(keys[0], keys[at]));
                }
            }
            lemma_asked(world, query, i, k);
            lemma_one_declaration(world, i, k, i, k);
            let nodes = Set::new(
                |node: usize|
                    exists|j: usize, m: usize| #[trigger]
                        belongs(world, j, m, node) && one_declaration(world, i, k, j, m),
            );
            assert(asked[key] =~= nodes);
        } else {
            let (j, m) = choose|j: usize, m: usize| #[trigger]
                matched(world, j, m, query) && !one_declaration(world, i, k, j, m);
            lemma_one_declaration(world, i, k, j, m);
            assert(keys.contains(world.physical_key((j, m))));
        }
    }
}

/// What is said of the visibility of a declaration agrees with what the findings say: what is said
/// to be dead was found dead, and what was found to be used can be narrowed, unless it is required.
pub proof fn law_dispositions_agree_with_findings(
    world: WorldView,
    nodes: Set<usize>,
    node: usize,
    index: int,
)
    requires
        manageable(world),
        meant(world, nodes, node),
        world.candidates().contains_key(node),
        finding_is_on(world, index, node),
    ensures
        world.disposition(nodes) != ImpactVisibilityDisposition::NotPublicCandidate,
        world.disposition(nodes) == ImpactVisibilityDisposition::DeadPublic
            ==> world.findings()[index].kind == "dead_public"@,
        world.findings()[index].kind == "unnecessary_public"@ ==> world.disposition(nodes)
            == ImpactVisibilityDisposition::NarrowablePublic || world.disposition(nodes)
            == ImpactVisibilityDisposition::RequiredPublic,
{
    law_dispositions_say_what_is_so(world, nodes);
    reveal_strlit("dead_public");
    reveal_strlit("unnecessary_public");
    assert("dead_public"@.len() != "unnecessary_public"@.len());
}

/// What a use of a target counts as: code that runs while building is build-time code, whatever its
/// role.
pub proof fn law_uses_are_classed_by_target(target: CompilerTargetReportView)
    ensures
        compiled_class(target) == Some(ImpactProvenanceClass::BuildTime) <==> target.compilation_context
            == "host"@ || target.role == "build"@,
        compiled_class(target) == Some(ImpactProvenanceClass::Production)
            <==> target.compilation_context != "host"@ && target.role == "production"@,
        compiled_class(target) == Some(ImpactProvenanceClass::Nonproduction)
            <==> target.compilation_context != "host"@ && (target.role == "unit_test"@
            || target.role == "test"@ || target.role == "bench"@ || target.role == "example"@),
        compiled_class(target) != Some(ImpactProvenanceClass::PublicInterface),
{
    reveal_strlit("production");
    reveal_strlit("unit_test");
    reveal_strlit("test");
    reveal_strlit("bench");
    reveal_strlit("build");
    reveal_strlit("example");
    assert("production"@.len() == 10 && "unit_test"@.len() == 9 && "test"@.len() == 4
        && "bench"@.len() == 5 && "build"@.len() == 5 && "example"@.len() == 7);
    assert("bench"@[1] == 'e' && "build"@[1] == 'u');
}

/// Keeping each run of equal items once keeps all items.
proof fn lemma_without_repeats<A>(s: Seq<A>, item: A)
    ensures
        without_repeats(s).contains(item) <==> s.contains(item),
        s.len() > 0 ==> without_repeats(s).len() > 0 && without_repeats(s).last() == s.last(),
    decreases s.len(),
{
    if s.len() > 0 {
        let head = s.drop_last();
        let kept = without_repeats(head);
        lemma_without_repeats(head, item);
        if s.contains(item) {
            let x = choose|x: int| 0 <= x < s.len() && s[x] == item;
            if x < head.len() {
                assert(head[x] == item);
                let y = choose|y: int| 0 <= y < kept.len() && kept[y] == item;
                assert(without_repeats(s)[y] == item);
            } else {
                let all = without_repeats(s);
                assert(all[all.len() - 1] == item);
            }
        }
        if without_repeats(s).contains(item) {
            let all = without_repeats(s);
            let x = choose|x: int| 0 <= x < all.len() && all[x] == item;
            if x < kept.len() {
                assert(kept[x] == item);
                let y = choose|y: int| 0 <= y < head.len() && head[y] == item;
                assert(s[y] == item);
            } else {
                assert(s[s.len() - 1] == item);
            }
        }
    }
}

/// The direct uses of some states are those of the recorded references that lead to one of them.
pub proof fn law_direct_uses_are_recorded(
    world: WorldView,
    selected: Set<GraphState>,
    used: ImpactReferenceReportView,
)
    requires
        countable(world),
    ensures
        world.direct_uses(selected).contains(used) <==> exists|
            i: usize,
            k: usize,
            a: GraphState,
            b: GraphState,
        | #[trigger]
            leads(world, i, k, a, b) && selected.contains(b) && world.direct_use(
                ReferenceEdge {
                    from: a,
                    to: b,
                    kind: reference_at(world, i, k).kind,
                    invocation: i,
                    reference: k,
                },
            ) == Some(used),
{
    broadcast use vstd::seq_lib::group_to_multiset_ensures;

    let list = world.edge_list();
    let f = world.direct_entry(selected);
    let entries = collected(list, f);
    let sorted = stable_sorted::<String, ImpactReferenceReport>(entries);
    lemma_edge_list(world);
    lemma_stable_sorted::<String, ImpactReferenceReport>(entries);
    lemma_without_repeats(second(sorted), used);
    if second(sorted).contains(used) {
        let x = choose|x: int| 0 <= x < second(sorted).len() && second(sorted)[x] == used;
        lemma_stable_sorted_member::<String, ImpactReferenceReport>(entries, x);
        let at = lemma_collected_member(list, f, sorted[x]);
        let edge = list[at];
        assert(list.contains(edge));
        law_edges_are_recorded_references(world, edge);
        assert(leads(world, edge.invocation, edge.reference, edge.from, edge.to));
    }
    if exists|i: usize, k: usize, a: GraphState, b: GraphState| #[trigger]
        leads(world, i, k, a, b) && selected.contains(b) && world.direct_use(
            ReferenceEdge {
                from: a,
                to: b,
                kind: reference_at(world, i, k).kind,
                invocation: i,
                reference: k,
            },
        ) == Some(used) {
        let (i, k, a, b) = choose|i: usize, k: usize, a: GraphState, b: GraphState| #[trigger]
            leads(world, i, k, a, b) && selected.contains(b) && world.direct_use(
                ReferenceEdge {
                    from: a,
                    to: b,
                    kind: reference_at(world, i, k).kind,
                    invocation: i,
                    reference: k,
                },
            ) == Some(used);
        let edge = ReferenceEdge {
            from: a,
            to: b,
            kind: reference_at(world, i, k).kind,
            invocation: i,
            reference: k,
        };
        law_edges_are_recorded_references(world, edge);
        assert(list.contains(edge));
        let at = choose|at: int| 0 <= at < list.len() && list[at] == edge;
        lemma_kept(list, f, at);
        let entry = f(edge)->0;
        assert(entries.to_multiset().count(entry) > 0);
        assert(sorted.to_multiset().count(entry) > 0);
        assert(sorted.contains(entry));
        let x = choose|x: int| 0 <= x < sorted.len() && sorted[x] == entry;
        assert(second(sorted)[x] == used);
    }
}

/// Whether a recorded reference leads from one state to another.
pub open spec fn refers_to(world: WorldView, a: GraphState, b: GraphState) -> bool {
    exists|i: usize, k: usize| #[trigger] leads(world, i, k, a, b)
}

/// Code from which recorded references lead, one after the other, to a selected state is found
/// among its users, whatever the kinds of the references.
pub proof fn law_all_users_are_found(
    world: WorldView,
    selected: Set<GraphState>,
    walk: Seq<GraphState>,
)
    requires
        countable(world),
        walk.len() > 0,
        selected.contains(walk[0]),
        forall|x: int|
            0 < x < walk.len() ==> refers_to(world, #[trigger] walk[x], walk[x - 1]),
    ensures
        visits(consumers(selected, world.reference_edges()), walk.last()),
{
    let edges = world.reference_edges();
    lemma_states_finite(selected);
    lemma_edges_finite(edges);
    assert forall|x: int| 0 <= x < walk.len() - 1 implies #[trigger] steps(
        backwards(edges),
        walk,
        x,
    ) by {
        assert(refers_to(world, walk[x + 1], walk[x + 1 - 1]));
        let (i, k) = choose|i: usize, k: usize| #[trigger]
            leads(world, i, k, walk[x + 1], walk[x]);
        let edge = ReferenceEdge {
            from: walk[x + 1],
            to: walk[x],
            kind: reference_at(world, i, k).kind,
            invocation: i,
            reference: k,
        };
        law_edges_are_recorded_references(world, edge);
        let f = |edge: ReferenceEdge| (edge.to, edge.from);
        assert(edges.map(f).contains(f(edge)));
    }
    assert(is_walk(backwards(edges), walk));
    law_searches_find_shortest_ways(selected, edges, walk);
}

} // verus!
