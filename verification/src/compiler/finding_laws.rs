//! What the findings of the closed world, and answers about single declarations, say of the
//! recorded definitions.

use vstd::prelude::*;

use crate::collections::{
    ascending, collected, flat_image, image, lemma_ascending_exists, lemma_bounded_finite,
    lemma_cells, lemma_collected_member, lemma_image_finite, lemma_least, lemma_stable_sorted,
    lemma_stable_sorted_member, least, stable_sorted,
};
use crate::compiler::closed_world::{
    law_candidates_are_not_required, law_findings_are_on_what_nothing_requires, library_kind,
};
use crate::compiler::graph::{
    source_with, visibility_key_of, GraphClass, WorldView,
};
use crate::compiler::graph_keys::{GraphState, VisibilityKey, VisibilityKeyView};
use crate::compiler::world_laws::{
    countable, definition_at, law_live_definitions_are_what_the_roots_use,
    law_nodes_gather_definitions, law_required_definitions_are_what_has_to_be_public,
    lemma_definition_places, lemma_kept, lemma_root_cells, live, must_be_public, one_visibility,
    place_of, root_at, roots_in,
};
use crate::model::{ClosedWorldFindingReport, ImpactVisibilityDisposition};
use crate::order::Ordered;
use crate::protocol::{DefinitionKind, ExpansionOrigin, NominalVisibility, RootKind};

verus! {

/// Whether a world and the number of its definitions fit machine words.
pub open spec fn manageable(world: WorldView) -> bool {
    countable(world) && world.definition_cells().len() <= usize::MAX
}

/// Whether a recorded definition belongs to a node.
pub open spec fn belongs(world: WorldView, i: usize, k: usize, node: usize) -> bool {
    &&& i < world.invocations.len()
    &&& k < world.invocations[i as int].invocation.definitions.len()
    &&& world.node_of((i, k)) == node
}

/// Whether definitions of two nodes have one visibility.
pub open spec fn visible_together(world: WorldView, a: usize, b: usize) -> bool {
    exists|i: usize, k: usize, j: usize, m: usize|
        #![trigger belongs(world, i, k, a), belongs(world, j, m, b)]
        belongs(world, i, k, a) && belongs(world, j, m, b) && one_visibility(world, i, k, j, m)
}

/// The places of the members of all nodes hold just the definitions that belong to the nodes.
pub proof fn lemma_members(world: WorldView)
    requires
        manageable(world),
    ensures
        world.nodes().len() <= usize::MAX,
        forall|x: int|
            0 <= x < world.member_cells().len() ==> {
                let place = #[trigger] world.member_cells()[x];
                let cell = world.nodes()[place.0 as int][place.1 as int];
                belongs(world, cell.0, cell.1, place.0)
            },
        forall|i: usize, k: usize, node: usize| #[trigger]
            belongs(world, i, k, node) ==> node < world.nodes().len() && exists|x: int|
                0 <= x < world.member_cells().len() && (#[trigger] world.member_cells()[x]).0
                    == node
                    && world.nodes()[node as int][world.member_cells()[x].1 as int] == (i, k),
{
    let all = world.definition_cells();
    let nodes = world.nodes();
    let lengths = Seq::new(nodes.len(), |n: int| nodes[n].len() as usize);
    world.lemma_keys_grow(0, all.len() as int);
    lemma_definition_places(world);
    assert(all.take(all.len() as int) =~= all);
    assert forall|n: int| 0 <= n < nodes.len() implies (#[trigger] nodes[n]).len()
        <= usize::MAX by {
        lemma_collected_short(all, world.member_of(world.node_keys()[n]));
    }
    lemma_cells(lengths);
    assert forall|x: int| 0 <= x < world.member_cells().len() implies {
        let place = #[trigger] world.member_cells()[x];
        let cell = nodes[place.0 as int][place.1 as int];
        belongs(world, cell.0, cell.1, place.0)
    } by {
        let place = world.member_cells()[x];
        let cell = nodes[place.0 as int][place.1 as int];
        world.lemma_members(place.0 as int, all.len() as int);
        assert(world.members(place.0 as int)[place.1 as int] == cell);
        assert(all.contains(cell));
        let y = choose|y: int| 0 <= y < all.len() && all[y] == cell;
        assert(nodes[place.0 as int].contains(cell));
        law_nodes_gather_definitions(world, cell.0, cell.1, cell.0, cell.1);
    }
    assert forall|i: usize, k: usize, node: usize| #[trigger] belongs(world, i, k, node) implies node
        < nodes.len() && exists|x: int|
        0 <= x < world.member_cells().len() && (#[trigger] world.member_cells()[x]).0 == node
            && nodes[node as int][world.member_cells()[x].1 as int] == (i, k) by {
        law_nodes_gather_definitions(world, i, k, i, k);
        let m = choose|m: int| 0 <= m < nodes[node as int].len() && nodes[node as int][m] == (i, k);
        assert(lengths[node as int] == nodes[node as int].len());
        assert(world.member_cells().contains((node, m as usize)));
        let x = choose|x: int|
            0 <= x < world.member_cells().len() && world.member_cells()[x] == (node, m as usize);
        assert(world.member_cells()[x].0 == node);
    }
}

/// No more is collected than there is.
proof fn lemma_collected_short<A, B>(s: Seq<A>, f: spec_fn(A) -> Option<B>)
    ensures
        collected(s, f).len() <= s.len(),
    decreases s.len(),
{
    if s.len() > 0 {
        lemma_collected_short(s.drop_last(), f);
    }
}

/// Whether a node is meant where the visibility of some nodes is: it has one visibility with one
/// of them, or is one of them where none has a visibility that can be edited.
pub open spec fn meant(world: WorldView, nodes: Set<usize>, node: usize) -> bool {
    ||| exists|other: usize| #[trigger]
        nodes.contains(other) && visible_together(world, other, node)
    ||| nodes.contains(node) && forall|other: usize| #[trigger]
        nodes.contains(other) ==> !visible_together(world, other, other)
}

/// The visibility of a node is that of all nodes that have one visibility with it.
pub proof fn law_visibility_is_shared(world: WorldView, nodes: Set<usize>, node: usize)
    requires
        manageable(world),
    ensures
        world.visibility_nodes(nodes).contains(node) <==> meant(world, nodes, node),
{
    let places = world.member_cells();
    let f = world.node_visibility(nodes);
    let keys = image(places, f);
    let g = world.sharing_node(keys);
    lemma_members(world);
    assert forall|other: usize| #[trigger] nodes.contains(other) && visible_together(
        world,
        other,
        other,
    ) implies keys != Set::<VisibilityKeyView>::empty() by {
        let (i, k, j, m) = choose|i: usize, k: usize, j: usize, m: usize|
            #![trigger belongs(world, i, k, other), belongs(world, j, m, other)]
            belongs(world, i, k, other) && belongs(world, j, m, other) && one_visibility(
                world,
                i,
                k,
                j,
                m,
            );
        let key = lemma_key(world, i, k, j, m);
        assert(belongs(world, i, k, other));
        let x = choose|x: int|
            0 <= x < places.len() && (#[trigger] places[x]).0 == other
                && world.nodes()[other as int][places[x].1 as int] == (i, k);
        assert(f(places[x]) == Some(key));
        assert(keys.contains(key));
    }
    if keys != Set::<VisibilityKeyView>::empty() {
        let key = keys.choose();
        assert(keys.contains(key)) by {
            if forall|key: VisibilityKeyView| !keys.contains(key) {
                assert(keys =~= Set::<VisibilityKeyView>::empty());
            }
        }
        let x = choose|x: int| 0 <= x < places.len() && f(#[trigger] places[x]) == Some(key);
        let cell = world.nodes()[places[x].0 as int][places[x].1 as int];
        assert(belongs(world, cell.0, cell.1, places[x].0));
        assert(one_visibility(world, cell.0, cell.1, cell.0, cell.1));
        assert(visible_together(world, places[x].0, places[x].0));
        assert(nodes.contains(places[x].0));
        if world.visibility_nodes(nodes).contains(node) {
            let y = choose|y: int| 0 <= y < places.len() && g(#[trigger] places[y]) == Some(node);
            let member = world.nodes()[places[y].0 as int][places[y].1 as int];
            assert(belongs(world, member.0, member.1, node));
            let shared = visibility_key_of(
                world.places,
                world.input(member),
                world.definition(member),
            )->0;
            assert(keys.contains(shared));
            let z = choose|z: int| 0 <= z < places.len() && f(#[trigger] places[z]) == Some(shared);
            let first = world.nodes()[places[z].0 as int][places[z].1 as int];
            assert(belongs(world, first.0, first.1, places[z].0));
            assert(one_visibility(world, first.0, first.1, member.0, member.1));
            assert(nodes.contains(places[z].0));
            assert(visible_together(world, places[z].0, node));
        }
    }
    if exists|other: usize| #[trigger]
        nodes.contains(other) && visible_together(world, other, node) {
        let other = choose|other: usize| #[trigger]
            nodes.contains(other) && visible_together(world, other, node);
        let (i, k, j, m) = choose|i: usize, k: usize, j: usize, m: usize|
            #![trigger belongs(world, i, k, other), belongs(world, j, m, node)]
            belongs(world, i, k, other) && belongs(world, j, m, node) && one_visibility(
                world,
                i,
                k,
                j,
                m,
            );
        let key = lemma_key(world, i, k, j, m);
        assert(belongs(world, i, k, other) && belongs(world, j, m, node));
        let x = choose|x: int|
            0 <= x < places.len() && (#[trigger] places[x]).0 == other
                && world.nodes()[other as int][places[x].1 as int] == (i, k);
        let y = choose|y: int|
            0 <= y < places.len() && (#[trigger] places[y]).0 == node
                && world.nodes()[node as int][places[y].1 as int] == (j, m);
        assert(f(places[x]) == Some(key));
        assert(keys.contains(key));
        assert(g(places[y]) == Some(node));
    }
}

/// What two definitions with one visibility are gathered by.
proof fn lemma_key(world: WorldView, i: usize, k: usize, j: usize, m: usize) -> (key:
    VisibilityKeyView)
    requires
        one_visibility(world, i, k, j, m),
    ensures
        visibility_key_of(world.places, world.input((i, k)), world.definition((i, k))) == Some(key),
        visibility_key_of(world.places, world.input((j, m)), world.definition((j, m))) == Some(key),
{
    VisibilityKeyView { kind: definition_at(world, i, k).kind, span: place_of(world, i, k)->0 }
}

/// Whether a node is live in production, or in tests, benches and examples.
pub open spec fn used_in(world: WorldView, class: GraphClass, node: usize) -> bool {
    exists|s: GraphState| #[trigger] live(world, class, s) && s.node == node
}

/// Whether a node has to be public.
pub open spec fn kept_public(world: WorldView, node: usize) -> bool {
    exists|s: GraphState| #[trigger] must_be_public(world, s) && s.node == node
}

/// What is said of the visibility of a declaration: that it is required just where something with
/// this visibility has to be public, that it can be narrowed or is dead just where nothing has to
/// be and a candidate has it; dead just where nothing with this visibility is live, in production
/// or elsewhere.
pub proof fn law_dispositions_say_what_is_so(world: WorldView, nodes: Set<usize>)
    requires
        manageable(world),
    ensures
        ({
            let required = exists|node: usize| #[trigger]
                meant(world, nodes, node) && kept_public(world, node);
            let candidate = exists|node: usize| #[trigger]
                meant(world, nodes, node) && world.candidates().contains_key(node);
            let used = exists|node: usize| #[trigger]
                meant(world, nodes, node) && (used_in(world, GraphClass::Production, node)
                    || used_in(world, GraphClass::Nonproduction, node));
            let said = world.disposition(nodes);
            &&& said == ImpactVisibilityDisposition::RequiredPublic <==> required
            &&& said == ImpactVisibilityDisposition::NarrowablePublic <==> !required && candidate
                && used
            &&& said == ImpactVisibilityDisposition::DeadPublic <==> !required && candidate && !used
            &&& said == ImpactVisibilityDisposition::NotPublicCandidate <==> !required && !candidate
        }),
{
    let shared = world.visibility_nodes(nodes);
    assert forall|node: usize|
        shared.contains(node) <==> #[trigger] meant(world, nodes, node) by {
        law_visibility_is_shared(world, nodes, node);
    }
    assert forall|node: usize| #[trigger] shared.contains(node) implies meant(
        world,
        nodes,
        node,
    ) by {
        law_visibility_is_shared(world, nodes, node);
    }
    assert forall|node: usize| #[trigger]
        shared.contains(node) implies world.required_nodes().contains_key(node) == kept_public(
        world,
        node,
    ) && world.production_live().contains(node) == used_in(world, GraphClass::Production, node)
        && world.nonproduction_live().contains(node) == used_in(
        world,
        GraphClass::Nonproduction,
        node,
    ) by {
        law_required_definitions_are_what_has_to_be_public(world, node, Seq::empty());
        law_live_definitions_are_what_the_roots_use(world, node);
    }
    if exists|node: usize| #[trigger] meant(world, nodes, node) && kept_public(world, node) {
        let node = choose|node: usize| #[trigger]
            meant(world, nodes, node) && kept_public(world, node);
        assert(shared.contains(node));
    }
    if exists|node: usize| #[trigger]
        meant(world, nodes, node) && world.candidates().contains_key(node) {
        let node = choose|node: usize| #[trigger]
            meant(world, nodes, node) && world.candidates().contains_key(node);
        assert(shared.contains(node));
    }
    if exists|node: usize| #[trigger]
        meant(world, nodes, node) && (used_in(world, GraphClass::Production, node) || used_in(
            world,
            GraphClass::Nonproduction,
            node,
        )) {
        let node = choose|node: usize| #[trigger]
            meant(world, nodes, node) && (used_in(world, GraphClass::Production, node) || used_in(
                world,
                GraphClass::Nonproduction,
                node,
            ));
        assert(shared.contains(node));
    }
}

/// Whether a node is allowed to hold dead code.
pub open spec fn dead_code_is_allowed(world: WorldView, node: usize) -> bool {
    exists|i: usize, k: usize, s: GraphState| #[trigger]
        roots_in(world, i, k, s) && root_at(world, i, k).kind == RootKind::Conservative && root_at(
            world,
            i,
            k,
        ).reason == "dead_code is explicitly allowed for this definition"@ && s.node == node
}

/// Whether it could be suggested to make a recorded definition less visible: it is public and seen
/// from outside, written by hand where it can be edited, in a library or its unit tests, and its
/// visibility is its own.
pub open spec fn suggestible(world: WorldView, i: usize, k: usize) -> bool {
    let target = world.invocations[i as int].target;
    let definition = definition_at(world, i, k);
    let library = |kind: Seq<char>|
        kind == "lib"@ || kind == "rlib"@ || kind == "dylib"@ || kind == "cdylib"@ || kind
            == "staticlib"@ || kind == "proc-macro"@;
    &&& exists|n: int| 0 <= n < target.kinds.len() && library(#[trigger] target.kinds[n])
    &&& (target.role == "production"@ && (target.compilation_context == "target"@
        || target.kinds.contains("proc-macro"@))) || (target.role == "unit_test"@
        && target.compilation_context == "target"@)
    &&& definition.externally_reachable
    &&& definition.visibility_editable
    &&& definition.nominal_visibility == NominalVisibility::Public
    &&& definition.expansion_origin == ExpansionOrigin::Authored
    &&& definition.span is Some
    &&& source_with(
        world.invocations[i as int].invocation.sources,
        definition.span->0.file,
    ) matches Some(source) && !source.generated
    &&& definition.kind != DefinitionKind::Crate
    &&& definition.kind != DefinitionKind::Variant
    &&& definition.kind != DefinitionKind::Constructor
    &&& definition.kind != DefinitionKind::Implementation
    &&& definition.kind != DefinitionKind::Import
    &&& definition.kind != DefinitionKind::Macro
    &&& definition.kind != DefinitionKind::ExternCrate
    &&& definition.kind != DefinitionKind::ForeignModule
    &&& definition.kind != DefinitionKind::OpaqueType
    &&& !in_trait(world, i, k)
}

/// Whether a recorded definition is an associated item of a trait.
pub open spec fn in_trait(world: WorldView, i: usize, k: usize) -> bool {
    let definition = definition_at(world, i, k);
    &&& definition.kind == DefinitionKind::AssociatedType || definition.kind
        == DefinitionKind::AssociatedFunction || definition.kind
        == DefinitionKind::AssociatedConstant
    &&& definition.parent is Some
    &&& exists|n: int|
        0 <= n < world.invocations[i as int].invocation.definitions.len() && (
        #[trigger] world.invocations[i as int].invocation.definitions[n]).compiler_id
            == definition.parent->0
            && world.invocations[i as int].invocation.definitions[n].kind == DefinitionKind::Trait
}

/// Whether one of the definitions of a node could be suggested.
pub open spec fn has_suggestible(world: WorldView, node: usize) -> bool {
    exists|i: usize, k: usize| #[trigger] belongs(world, i, k, node) && suggestible(world, i, k)
}

proof fn lemma_suggestible(world: WorldView, i: usize, k: usize)
    ensures
        world.is_candidate((i, k)) == suggestible(world, i, k),
{
    let target = world.invocations[i as int].target;
    let library = |kind: Seq<char>|
        kind == "lib"@ || kind == "rlib"@ || kind == "dylib"@ || kind == "cdylib"@ || kind
            == "staticlib"@ || kind == "proc-macro"@;
    reveal_strlit("production");
    reveal_strlit("unit_test");
    assert("production"@.len() != "unit_test"@.len());
    if exists|n: int|
        0 <= n < target.kinds.len() && library_kind(
            #[trigger] target.kinds[n],
        ) {
        let n = choose|n: int|
            0 <= n < target.kinds.len() && library_kind(
                #[trigger] target.kinds[n],
            );
        assert(library(target.kinds[n]));
    }
    if exists|n: int| 0 <= n < target.kinds.len() && library(#[trigger] target.kinds[n]) {
        let n = choose|n: int| 0 <= n < target.kinds.len() && library(#[trigger] target.kinds[n]);
        assert(library_kind(target.kinds[n]));
    }
}

/// The least element by a measure has the least measure.
proof fn lemma_least_measure<A>(s: Seq<A>, less: spec_fn(A, A) -> bool, measure: spec_fn(A) -> int)
    requires
        forall|a: A, b: A| #[trigger] less(a, b) <==> measure(a) < measure(b),
    ensures
        least(s, less) matches Some(best) ==> forall|x: int|
            0 <= x < s.len() ==> measure(best) <= measure(#[trigger] s[x]),
    decreases s.len(),
{
    if s.len() > 0 {
        let head = s.drop_last();
        lemma_least(head, less);
        lemma_least(s, less);
        lemma_least_measure(head, less, measure);
        let best = least(s, less)->0;
        assert forall|x: int| 0 <= x < s.len() implies measure(best) <= measure(
            #[trigger] s[x],
        ) by {
            if x < head.len() {
                assert(head[x] == s[x]);
            }
            if let Some(before) = least(head, less) {
                assert(less(s.last(), before) <==> measure(s.last()) < measure(before));
            }
        }
    }
}

/// The definition that a node is suggested by is one of its own that could be suggested, for
/// production where there is one, of the earliest invocation.
pub proof fn law_candidates_represent_their_nodes(world: WorldView, node: usize)
    requires
        manageable(world),
    ensures
        world.all_candidates().contains_key(node) <==> has_suggestible(world, node),
        world.all_candidates().contains_key(node) ==> {
            let best = world.all_candidates()[node];
            &&& belongs(world, best.0, best.1, node)
            &&& suggestible(world, best.0, best.1)
            &&& forall|i: usize, k: usize| #[trigger]
                belongs(world, i, k, node) && suggestible(world, i, k) ==> {
                    let ahead = world.invocations[i as int].target.role == "production"@;
                    let chosen = world.invocations[best.0 as int].target.role == "production"@;
                    (ahead ==> chosen) && (ahead == chosen ==> best.0 <= i)
                }
        },
{
    let pick = world.pick_candidate();
    let better = world.represents_better();
    let measure = |cell: (usize, usize)|
        if world.input(cell).target.role == "production"@ {
            cell.0 as int
        } else {
            cell.0 + usize::MAX + 1
        };
    lemma_members(world);
    if node < world.nodes().len() {
        let members = world.nodes()[node as int];
        let picked = world.candidate_members(node as int);
        lemma_least(picked, better);
        assert forall|a: (usize, usize), b: (usize, usize)| #[trigger] better(a, b) <==> measure(a)
            < measure(b) by {}
        lemma_least_measure(picked, better, measure);
        if let Some(best) = world.candidate_of(node as int) {
            let at = lemma_collected_member(members, pick, best);
            lemma_suggestible(world, best.0, best.1);
            lemma_node_members(world, node, at);
            assert(belongs(world, best.0, best.1, node));
        }
        assert forall|i: usize, k: usize| #[trigger]
            belongs(world, i, k, node) && suggestible(world, i, k) implies picked.contains(
            (i, k),
        ) by {
            law_nodes_gather_definitions(world, i, k, i, k);
            let m = choose|m: int| 0 <= m < members.len() && members[m] == (i, k);
            lemma_suggestible(world, i, k);
            lemma_kept(members, pick, m);
        }
        assert forall|i: usize, k: usize|
            world.candidate_of(node as int) is Some && #[trigger] belongs(world, i, k, node)
                && suggestible(world, i, k) implies {
            let best = world.candidate_of(node as int)->0;
            let ahead = world.invocations[i as int].target.role == "production"@;
            let chosen = world.invocations[best.0 as int].target.role == "production"@;
            (ahead ==> chosen) && (ahead == chosen ==> best.0 <= i)
        } by {
            assert(picked.contains((i, k)));
            let x = choose|x: int| 0 <= x < picked.len() && picked[x] == (i, k);
            assert(measure(world.candidate_of(node as int)->0) <= measure(picked[x]));
        }
    }
}

/// A member of a node belongs to it.
proof fn lemma_node_members(world: WorldView, node: usize, at: int)
    requires
        manageable(world),
        node < world.nodes().len(),
        0 <= at < world.nodes()[node as int].len(),
    ensures
        belongs(
            world,
            world.nodes()[node as int][at].0,
            world.nodes()[node as int][at].1,
            node,
        ),
{
    let all = world.definition_cells();
    let cell = world.nodes()[node as int][at];
    lemma_definition_places(world);
    assert(all.take(all.len() as int) =~= all);
    world.lemma_members(node as int, all.len() as int);
    assert(world.members(node as int)[at] == cell);
    assert(all.contains(cell));
    let y = choose|y: int| 0 <= y < all.len() && all[y] == cell;
    assert(world.nodes()[node as int].contains(cell));
    law_nodes_gather_definitions(world, cell.0, cell.1, cell.0, cell.1);
}

/// Whether nothing keeps a node from being made less visible.
pub open spec fn free_to_narrow(world: WorldView, node: usize) -> bool {
    has_suggestible(world, node) && !kept_public(world, node) && !dead_code_is_allowed(world, node)
}

proof fn lemma_narrowable(world: WorldView, node: usize)
    requires
        manageable(world),
    ensures
        world.narrowable(node) == free_to_narrow(world, node),
        world.suppressed().contains(node) == dead_code_is_allowed(world, node),
        world.required_nodes().contains_key(node) == kept_public(world, node),
{
    let places = world.root_cells();
    let f = world.suppressed_root();
    law_candidates_represent_their_nodes(world, node);
    law_required_definitions_are_what_has_to_be_public(world, node, Seq::empty());
    lemma_root_cells(world);
    if world.suppressed().contains(node) {
        let x = choose|x: int| 0 <= x < places.len() && f(#[trigger] places[x]) == Some(node);
        let s = world.root_state(places[x])->0;
        assert(roots_in(world, places[x].0, places[x].1, s));
    }
    if dead_code_is_allowed(world, node) {
        let (i, k, s) = choose|i: usize, k: usize, s: GraphState| #[trigger]
            roots_in(world, i, k, s) && root_at(world, i, k).kind == RootKind::Conservative
                && root_at(world, i, k).reason
                == "dead_code is explicitly allowed for this definition"@ && s.node == node;
        assert(places.contains((i, k)));
        let x = choose|x: int| 0 <= x < places.len() && places[x] == (i, k);
        assert(f(places[x]) == Some(node));
    }
}

/// Whether nothing keeps the visibility of a recorded definition from being narrowed: it has one,
/// and every node with that visibility is free to be narrowed.
pub open spec fn free_visibility(world: WorldView, i: usize, k: usize) -> bool {
    &&& one_visibility(world, i, k, i, k)
    &&& forall|j: usize, m: usize, other: usize| #[trigger]
        belongs(world, j, m, other) && one_visibility(world, i, k, j, m) ==> free_to_narrow(
            world,
            other,
        )
}

/// A node is a candidate just where it has a visibility of its own that no other definition needs:
/// every node with that visibility could be suggested, has to be public for nothing, and is not
/// allowed to be dead.
pub proof fn law_candidates_can_be_narrowed(world: WorldView, node: usize)
    requires
        manageable(world),
    ensures
        world.candidates().contains_key(node) <==> has_suggestible(world, node) && exists|
            i: usize,
            k: usize,
        | #[trigger] belongs(world, i, k, node) && free_visibility(world, i, k),
        world.candidates().contains_key(node) ==> world.candidates()[node]
            == world.all_candidates()[node],
{
    law_candidates_represent_their_nodes(world, node);
    if world.candidates().contains_key(node) {
        lemma_candidate_is_free(world, node);
    }
    if has_suggestible(world, node) && exists|i: usize, k: usize| #[trigger]
        belongs(world, i, k, node) && free_visibility(world, i, k) {
        let (i, k) = choose|i: usize, k: usize| #[trigger]
            belongs(world, i, k, node) && free_visibility(world, i, k);
        lemma_free_is_candidate(world, node, i, k);
    }
}

/// The visibility of a candidate is free.
proof fn lemma_candidate_is_free(world: WorldView, node: usize)
    requires
        manageable(world),
        world.candidates().contains_key(node),
    ensures
        exists|i: usize, k: usize| #[trigger]
            belongs(world, i, k, node) && free_visibility(world, i, k),
{
    let places = world.member_cells();
    let f = world.visibility_node();
    let groups = world.visibility_node_groups();
    let keys = ascending::<VisibilityKey>(groups.dom());
    let g = |key: VisibilityKeyView| world.safe_group(groups[key]);
    lemma_members(world);
    lemma_group_keys(world);
    lemma_ascending_exists::<VisibilityKey>(groups.dom());
    assert(world.safe_nodes() == flat_image(keys, g));
    let n = choose|n: int| 0 <= n < keys.len() && g(#[trigger] keys[n]).contains(node);
    let key = keys[n];
    assert(keys.to_set().contains(key));
    assert(groups[key].contains(node));
    let x = choose|x: int| 0 <= x < places.len() && f(#[trigger] places[x]) == Some((key, node));
    let (i, k) = world.nodes()[places[x].0 as int][places[x].1 as int];
    assert(belongs(world, i, k, node));
    assert(one_visibility(world, i, k, i, k));
    assert forall|j: usize, m: usize, other: usize| #[trigger]
        belongs(world, j, m, other) && one_visibility(world, i, k, j, m) implies free_to_narrow(
        world,
        other,
    ) by {
        let shared = lemma_key(world, i, k, j, m);
        let y = choose|y: int|
            0 <= y < places.len() && (#[trigger] places[y]).0 == other
                && world.nodes()[other as int][places[y].1 as int] == (j, m);
        assert(f(places[y]) == Some((key, other)));
        assert(groups[key].contains(other));
        assert(world.narrowable(other));
        lemma_narrowable(world, other);
    }
    assert(free_visibility(world, i, k));
}

/// A node with a free visibility is a candidate.
proof fn lemma_free_is_candidate(world: WorldView, node: usize, i: usize, k: usize)
    requires
        manageable(world),
        world.all_candidates().contains_key(node),
        belongs(world, i, k, node),
        free_visibility(world, i, k),
    ensures
        world.candidates().contains_key(node),
{
    let places = world.member_cells();
    let f = world.visibility_node();
    let groups = world.visibility_node_groups();
    let keys = ascending::<VisibilityKey>(groups.dom());
    let g = |key: VisibilityKeyView| world.safe_group(groups[key]);
    lemma_members(world);
    lemma_group_keys(world);
    lemma_ascending_exists::<VisibilityKey>(groups.dom());
    assert(world.safe_nodes() == flat_image(keys, g));
    let key = lemma_key(world, i, k, i, k);
    let x = choose|x: int|
        0 <= x < places.len() && (#[trigger] places[x]).0 == node
            && world.nodes()[node as int][places[x].1 as int] == (i, k);
    assert(f(places[x]) == Some((key, node)));
    assert(groups.contains_key(key));
    assert(groups[key].contains(node));
    assert forall|other: usize| #[trigger] groups[key].contains(other) implies world.narrowable(
        other,
    ) by {
        let y = choose|y: int| 0 <= y < places.len() && f(#[trigger] places[y]) == Some((key, other));
        let (j, m) = world.nodes()[places[y].0 as int][places[y].1 as int];
        assert(belongs(world, j, m, other));
        assert(one_visibility(world, i, k, j, m));
        assert(free_to_narrow(world, other));
        lemma_narrowable(world, other);
    }
    assert(keys.to_set().contains(key));
    let n = choose|n: int| 0 <= n < keys.len() && keys[n] == key;
    assert(g(keys[n]).contains(node));
}

/// There are finitely many visibilities.
proof fn lemma_group_keys(world: WorldView)
    ensures
        world.visibility_node_groups().dom().finite(),
{
    let places = world.member_cells();
    let f = world.visibility_node();
    let h = |place: (usize, usize)|
        match f(place) {
            Some(pair) => Some(pair.0),
            None => None,
        };
    lemma_image_finite(places, h);
    assert forall|key: VisibilityKeyView| world.visibility_node_groups().dom().contains(
        key,
    ) implies image(places, h).contains(key) by {
        let n = choose|n: int|
            0 <= n < places.len() && f(#[trigger] places[n]) is Some && (f(places[n])->0).0 == key;
        assert(h(places[n]) == Some(key));
    }
    vstd::set_lib::lemma_set_subset_finite(
        image(places, h),
        world.visibility_node_groups().dom(),
    );
}

/// What a finding is sorted by: its kind, the package, the path of the definition, and its
/// identity.
pub open spec fn finding_place(world: WorldView, index: int) -> (
    Seq<char>,
    (Seq<char>, (Seq<char>, (Seq<char>, Seq<char>))),
) {
    let finding = world.findings()[index];
    (
        finding.kind,
        (
            finding.package_id,
            (
                finding.definition_path,
                (finding.representative_id.stable_crate_id, finding.representative_id.local_hash),
            ),
        ),
    )
}

/// Whether a finding is about a node, and says what is so of it.
pub open spec fn finding_is_on(world: WorldView, index: int, node: usize) -> bool {
    let finding = world.findings()[index];
    let (i, k) = world.candidates()[node];
    let input = world.invocations[i as int];
    &&& finding.production_live == used_in(world, GraphClass::Production, node)
    &&& finding.nonproduction_live == used_in(world, GraphClass::Nonproduction, node)
    &&& finding.kind == if finding.production_live || finding.nonproduction_live {
        "unnecessary_public"@
    } else {
        "dead_public"@
    }
    &&& finding.test_compiled_only == !exists|j: usize, m: usize| #[trigger]
        belongs(world, j, m, node) && world.invocations[j as int].target.role == "production"@
    &&& finding.package_id == input.target.package_id
    &&& finding.crate_name == input.crate_name
    &&& finding.representative_invocation == input.invocation.started.merge_key
    &&& finding.definition_path == definition_at(world, i, k).definition_path
}

/// Every finding is about a candidate and says of it whether production code, or tests, benches
/// and examples use it, and whether it is dead.
pub proof fn law_findings_are_about_candidates(world: WorldView, index: int) -> (node: usize)
    requires
        manageable(world),
        0 <= index < world.findings().len(),
    ensures
        world.candidates().contains_key(node),
        finding_is_on(world, index, node),
{
    let node = law_findings_are_on_what_nothing_requires(world, index);
    law_live_definitions_are_what_the_roots_use(world, node);
    lemma_compiled(world, node);
    node
}

/// Every candidate is found.
pub proof fn law_candidates_are_found(world: WorldView, node: usize) -> (index: int)
    requires
        manageable(world),
        world.candidates().contains_key(node),
    ensures
        0 <= index < world.findings().len(),
        finding_is_on(world, index, node),
{
    broadcast use vstd::seq_lib::group_to_multiset_ensures;

    let names = ascending::<usize>(world.candidates().dom());
    let f = world.finding_entry();
    let entries = collected(names, f);
    lemma_bounded_finite(world.candidates().dom(), world.nodes().len() as int);
    lemma_ascending_exists::<usize>(world.candidates().dom());
    assert(names.to_set().contains(node));
    let at = choose|at: int| 0 <= at < names.len() && names[at] == node;
    law_candidates_are_not_required(world, node);
    lemma_kept(names, f, at);
    let entry = f(node)->0;
    let sorted = stable_sorted::<
        (String, (String, (String, (String, String)))),
        ClosedWorldFindingReport,
    >(entries);
    lemma_stable_sorted::<
        (String, (String, (String, (String, String)))),
        ClosedWorldFindingReport,
    >(entries);
    assert(entries.contains(entry));
    assert(entries.to_multiset().count(entry) > 0);
    assert(sorted.to_multiset().count(entry) > 0);
    assert(sorted.contains(entry));
    let index = choose|index: int| 0 <= index < sorted.len() && sorted[index] == entry;
    assert(world.findings()[index] == entry.1);
    law_live_definitions_are_what_the_roots_use(world, node);
    lemma_compiled(world, node);
    index
}

/// Findings come in order.
pub proof fn law_findings_are_sorted(world: WorldView, earlier: int, later: int)
    requires
        0 <= earlier < later < world.findings().len(),
    ensures
        !<(String, (String, (String, (String, String)))) as Ordered>::precedes(
            finding_place(world, later),
            finding_place(world, earlier),
        ),
{
    let names = ascending::<usize>(world.candidates().dom());
    let f = world.finding_entry();
    let entries = collected(names, f);
    let sorted = stable_sorted::<
        (String, (String, (String, (String, String)))),
        ClosedWorldFindingReport,
    >(entries);
    lemma_stable_sorted::<
        (String, (String, (String, (String, String)))),
        ClosedWorldFindingReport,
    >(entries);
    assert forall|index: int| 0 <= index < sorted.len() implies (#[trigger] sorted[index]).0
        == finding_place(world, index) by {
        lemma_stable_sorted_member::<
            (String, (String, (String, (String, String)))),
            ClosedWorldFindingReport,
        >(entries, index);
        let at = lemma_collected_member(names, f, sorted[index]);
        assert(world.findings()[index] == sorted[index].1);
    }
    assert(sorted[earlier].0 == finding_place(world, earlier));
    assert(sorted[later].0 == finding_place(world, later));
}

/// A node is compiled for production just where a definition of production code belongs to it.
proof fn lemma_compiled(world: WorldView, node: usize)
    requires
        manageable(world),
        node < world.nodes().len(),
    ensures
        world.compiled_for_production(node as int) <==> exists|j: usize, m: usize| #[trigger]
            belongs(world, j, m, node) && world.invocations[j as int].target.role == "production"@,
{
    let members = world.nodes()[node as int];
    if world.compiled_for_production(node as int) {
        let x = choose|x: int|
            0 <= x < members.len() && world.input(#[trigger] members[x]).target.role
                == "production"@;
        lemma_node_members(world, node, x);
        assert(belongs(world, members[x].0, members[x].1, node));
    }
    if exists|j: usize, m: usize| #[trigger]
        belongs(world, j, m, node) && world.invocations[j as int].target.role == "production"@ {
        let (j, m) = choose|j: usize, m: usize| #[trigger]
            belongs(world, j, m, node) && world.invocations[j as int].target.role == "production"@;
        law_nodes_gather_definitions(world, j, m, j, m);
        let x = choose|x: int| 0 <= x < members.len() && members[x] == (j, m);
        assert(world.input(members[x]).target.role == "production"@);
    }
}

} // verus!
