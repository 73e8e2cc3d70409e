//! Searching the reference graph backwards.

use vstd::prelude::*;

use crate::collections::{
    ascending, group_at, grouped, lemma_ascending, lemma_grouped_ends, lemma_grouped_step, Groups,
    SortedMap, SortedSet,
};
use crate::compiler::graph_keys::{GraphState, ReferenceEdge};
use crate::compiler::reach::{is_walk, law_reach_is_closed, law_reach_is_least, reach, steps};

verus! {

/// A state that was reached backwards, and the edge by which it was.
#[derive(Clone, Copy, Debug, PartialEq, Eq, Structural)]
pub struct Visit {
    pub state: GraphState,
    pub edge: Option<ReferenceEdge>,
}

impl DeepView for Visit {
    type V = Visit;

    open spec fn deep_view(&self) -> Visit {
        *self
    }
}

/// The edges that lead to a state, in ascending order.
pub open spec fn incoming(edges: Set<ReferenceEdge>, state: GraphState) -> Seq<ReferenceEdge> {
    ascending::<ReferenceEdge>(edges.filter(|edge: ReferenceEdge| edge.to == state))
}

/// Whether a state was reached.
pub open spec fn visits(visited: Seq<Visit>, state: GraphState) -> bool {
    exists|i: int| 0 <= i < visited.len() && (#[trigger] visited[i]).state == state
}

/// What is reached after the starts of some edges are looked at.
pub open spec fn expanded(visited: Seq<Visit>, edges: Seq<ReferenceEdge>) -> Seq<Visit>
    decreases edges.len(),
{
    if edges.len() == 0 {
        visited
    } else {
        let earlier = expanded(visited, edges.drop_last());
        let edge = edges.last();
        if visits(earlier, edge.from) {
            earlier
        } else {
            earlier.push(Visit { state: edge.from, edge: Some(edge) })
        }
    }
}

/// Looks at one reached state after another, in the order in which they were reached, and adds
/// the states that lead to it.
pub open spec fn search(
    edges: Set<ReferenceEdge>,
    visited: Seq<Visit>,
    next: nat,
    rounds: nat,
) -> Seq<Visit>
    decreases rounds,
{
    if next >= visited.len() || rounds == 0 {
        visited
    } else {
        search(
            edges,
            expanded(visited, incoming(edges, visited[next as int].state)),
            next + 1,
            (rounds - 1) as nat,
        )
    }
}

/// The selected states, as a search starts with them.
pub open spec fn search_starts(selected: Set<GraphState>) -> Seq<Visit> {
    let states = ascending::<GraphState>(selected);
    Seq::new(states.len(), |i: int| Visit { state: states[i], edge: None })
}

/// All states that lead to a selected one, breadth first.
pub open spec fn consumers(selected: Set<GraphState>, edges: Set<ReferenceEdge>) -> Seq<Visit> {
    search(edges, search_starts(selected), 0, selected.len() + edges.len())
}

/// Every visit is a selected state, or reached by an edge to a state that was reached before;
/// no state is visited twice.
pub open spec fn search_order(
    selected: Set<GraphState>,
    edges: Set<ReferenceEdge>,
    visited: Seq<Visit>,
) -> bool {
    &&& forall|i: int, j: int|
        0 <= i < visited.len() && 0 <= j < visited.len() && i != j ==> (#[trigger] visited[i]).state
            != (#[trigger] visited[j]).state
    &&& forall|i: int|
        0 <= i < visited.len() ==> match (#[trigger] visited[i]).edge {
            None => selected.contains(visited[i].state),
            Some(edge) => {
                &&& !selected.contains(visited[i].state)
                &&& edges.contains(edge)
                &&& edge.from == visited[i].state
                &&& exists|j: int| 0 <= j < i && (#[trigger] visited[j]).state == edge.to
            },
        }
    &&& forall|state: GraphState| #[trigger] selected.contains(state) ==> visits(visited, state)
}

/// The edges turned round.
pub open spec fn backwards(edges: Set<ReferenceEdge>) -> Set<(GraphState, GraphState)> {
    edges.map(|edge: ReferenceEdge| (edge.to, edge.from))
}

/// The result of a backward search.
pub struct Consumers {
    pub visited: Vec<Visit>,
    pub places: SortedMap<GraphState, usize>,
}

impl Consumers {
    /// The table gives the place of each visited state.
    pub open spec fn wf(&self) -> bool {
        &&& self.places.wf()
        &&& forall|i: int, j: int|
            0 <= i < self.visited@.len() && 0 <= j < self.visited@.len() && i != j ==> (
            #[trigger] self.visited@[i]).state != (#[trigger] self.visited@[j]).state
        &&& forall|i: int|
            0 <= i < self.visited@.len() ==> self.places.deep_view().contains_key(
                (#[trigger] self.visited@[i]).state,
            ) && self.places.deep_view()[self.visited@[i].state] == i
        &&& forall|state: GraphState| #[trigger]
            self.places.deep_view().contains_key(state) ==> visits(self.visited@, state)
    }

    /// Whether a state was reached.
    pub fn contains(&self, state: &GraphState) -> (found: bool)
        requires
            self.wf(),
        ensures
            found == visits(self.visited@, *state),
    {
        proof {
            if visits(self.visited@, *state) {
                let i = choose|i: int|
                    0 <= i < self.visited@.len() && (#[trigger] self.visited@[i]).state == *state;
                assert(self.places.deep_view().contains_key(self.visited@[i].state));
            }
        }
        self.places.contains_key(state)
    }
}

/// One visit more.
proof fn lemma_visits_push(visited: Seq<Visit>, visit: Visit)
    ensures
        forall|state: GraphState| #[trigger]
            visits(visited.push(visit), state) == (visits(visited, state) || visit.state == state),
{
    let longer = visited.push(visit);
    assert forall|state: GraphState| #[trigger]
        visits(longer, state) == (visits(visited, state) || visit.state == state) by {
        if visits(longer, state) {
            let i = choose|i: int| 0 <= i < longer.len() && (#[trigger] longer[i]).state == state;
            if i < visited.len() {
                assert(visited[i].state == state);
            }
        }
        if visits(visited, state) {
            let i = choose|i: int| 0 <= i < visited.len() && (#[trigger] visited[i]).state == state;
            assert(longer[i].state == state);
        }
        assert(longer[visited.len() as int].state == visit.state);
    }
}

/// A search cannot visit more states than there are selected states and edges.
proof fn lemma_search_size(
    selected: Set<GraphState>,
    edges: Set<ReferenceEdge>,
    visited: Seq<Visit>,
)
    requires
        search_order(selected, edges, visited),
        selected.finite(),
        edges.finite(),
    ensures
        visited.len() <= selected.len() + edges.len(),
{
    let f = |i: int|
        match visited[i].edge {
            None => (Some(visited[i].state), None::<ReferenceEdge>),
            Some(edge) => (None::<GraphState>, Some(edge)),
        };
    let starts = Set::<int>::new(|i: int| 0 <= i < visited.len() && visited[i].edge is None);
    let others = Set::<int>::new(|i: int| 0 <= i < visited.len() && visited[i].edge is Some);
    let all = vstd::set_lib::set_int_range(0, visited.len() as int);
    vstd::set_lib::lemma_int_range(0, visited.len() as int);
    assert(starts.union(others) =~= all);
    assert(starts.subset_of(all));
    assert(others.subset_of(all));
    vstd::set_lib::lemma_set_subset_finite(all, starts);
    vstd::set_lib::lemma_set_subset_finite(all, others);
    assert(starts.disjoint(others));
    vstd::set_lib::lemma_set_disjoint_lens(starts, others);
    let state_at = |i: int| visited[i].state;
    let edge_at = |i: int| visited[i].edge->0;
    let start_states = starts.map(state_at);
    let other_edges = others.map(edge_at);
    assert forall|i: int, j: int|
        starts.contains(i) && starts.contains(j) && #[trigger] state_at(i) == #[trigger] state_at(
            j,
        ) implies i == j by {
        assert(visited[i].state == visited[j].state);
    }
    vstd::set_lib::lemma_map_size(starts, start_states, state_at);
    assert forall|i: int, j: int|
        others.contains(i) && others.contains(j) && #[trigger] edge_at(i) == #[trigger] edge_at(
            j,
        ) implies i == j by {
        assert(visited[i].state == edge_at(i).from);
        assert(visited[j].state == edge_at(j).from);
    }
    vstd::set_lib::lemma_map_size(others, other_edges, edge_at);
    assert(start_states.subset_of(selected)) by {
        assert forall|s: GraphState| start_states.contains(s) implies selected.contains(s) by {
            let i = choose|i: int| starts.contains(i) && state_at(i) == s;
            assert(visited[i].edge is None);
        }
    }
    assert(other_edges.subset_of(edges)) by {
        assert forall|e: ReferenceEdge| other_edges.contains(e) implies edges.contains(e) by {
            let i = choose|i: int| others.contains(i) && edge_at(i) == e;
            assert(visited[i].edge is Some);
        }
    }
    vstd::set_lib::lemma_len_subset(start_states, selected);
    vstd::set_lib::lemma_len_subset(other_edges, edges);
}

/// Finds all states that lead to a selected one, nearest first, each with the edge by which it
/// was first reached.
pub fn reverse_reachable(
    selected: &SortedSet<GraphState>,
    edges: &SortedSet<ReferenceEdge>,
) -> (found: Consumers)
    requires
        selected.wf(),
        edges.wf(),
    ensures
        found.wf(),
        found.visited@ == consumers(selected.deep_view(), edges.deep_view()),
        search_order(selected.deep_view(), edges.deep_view(), found.visited@),
        forall|state: GraphState| #[trigger]
            visits(found.visited@, state) == reach(
                selected.deep_view(),
                backwards(edges.deep_view()),
            ).contains(state),
{
    let ghost chosen = selected.deep_view();
    let ghost edge_set = edges.deep_view();
    let ghost list = edges.seq();
    let ghost by_target = |edge: ReferenceEdge| Some((edge.to, edge));
    let mut groups: Groups<GraphState, ReferenceEdge> = Groups::new();
    let mut index: usize = 0;
    proof {
        lemma_grouped_ends(list, by_target);
        selected.lemma_seq();
        edges.lemma_seq();
    }
    while index < edges.len()
        invariant
            edges.wf(),
            groups.wf(),
            list == edges.seq(),
            by_target == |edge: ReferenceEdge| Some((edge.to, edge)),
            index <= list.len(),
            groups.deep_view() == grouped(list.take(index as int), by_target),
        decreases list.len() - index,
    {
        let edge: ReferenceEdge = *edges.get(index);
        proof {
            lemma_grouped_step(list, by_target, index as int);
        }
        groups.add(edge.to, edge);
        index = index + 1;
    }
    proof {
        lemma_grouped_ends(list, by_target);
        assert forall|state: GraphState| #[trigger]
            group_at(groups.deep_view(), state) == edge_set.filter(
                |edge: ReferenceEdge| edge.to == state,
            ) by {
            let wanted = edge_set.filter(|edge: ReferenceEdge| edge.to == state);
            assert forall|edge: ReferenceEdge| group_at(groups.deep_view(), state).contains(edge)
                <==> wanted.contains(edge) by {
                if group_at(groups.deep_view(), state).contains(edge) {
                    let i = choose|i: int|
                        0 <= i < list.len() && by_target(#[trigger] list[i]) == Some((state, edge));
                    assert(list.contains(edge));
                }
                if wanted.contains(edge) {
                    let i = choose|i: int| 0 <= i < list.len() && list[i] == edge;
                    assert(by_target(list[i]) == Some((state, edge)));
                    assert(by_target(list[i]) is Some && (by_target(list[i])->0).0 == state);
                }
            }
            assert(group_at(groups.deep_view(), state) =~= wanted);
        }
    }
    let mut visited: Vec<Visit> = Vec::new();
    let mut places: SortedMap<GraphState, usize> = SortedMap::new();
    let mut start: usize = 0;
    while start < selected.len()
        invariant
            selected.wf(),
            places.wf(),
            chosen == selected.deep_view(),
            start <= selected.seq().len(),
            selected.seq() == ascending::<GraphState>(chosen),
            selected.seq().no_duplicates(),
            visited@ =~= search_starts(chosen).take(start as int),
            forall|i: int|
                0 <= i < start ==> places.deep_view().contains_key(
                    #[trigger] selected.seq()[i],
                ) && places.deep_view()[selected.seq()[i]] == i,
            forall|state: GraphState| #[trigger]
                places.deep_view().contains_key(state) ==> selected.seq().take(
                    start as int,
                ).contains(state),
        decreases selected.seq().len() - start,
    {
        let state: GraphState = *selected.get(start);
        visited.push(Visit { state, edge: None });
        places.insert(state, start);
        proof {
            assert forall|s: GraphState| #[trigger]
                places.deep_view().contains_key(s) implies selected.seq().take(start + 1).contains(
                s,
            ) by {
                if s == state {
                    assert(selected.seq().take(start + 1)[start as int] == s);
                } else {
                    let short = selected.seq().take(start as int);
                    let i = choose|i: int| 0 <= i < short.len() && short[i] == s;
                    assert(selected.seq().take(start + 1)[i] == s);
                }
            }
        }
        start = start + 1;
    }
    let ghost begun = search_starts(chosen);
    let ghost rounds: nat = chosen.len() + edge_set.len();
    let ghost back = backwards(edge_set);
    proof {
        assert(begun.take(begun.len() as int) =~= begun);
        assert(visited@ == begun);
        assert forall|state: GraphState| #[trigger]
            chosen.contains(state) implies visits(visited@, state) by {
            let i = choose|i: int| 0 <= i < selected.seq().len() && selected.seq()[i] == state;
            assert(visited@[i].state == state);
        }
        assert forall|i: int| 0 <= i < visited@.len() implies chosen.contains(
            (#[trigger] visited@[i]).state,
        ) by {
            assert(selected.seq().contains(selected.seq()[i]));
        }
        assert forall|state: GraphState| #[trigger]
            places.deep_view().contains_key(state) implies visits(visited@, state) by {
            let short = selected.seq().take(start as int);
            let i = choose|i: int| 0 <= i < short.len() && short[i] == state;
            assert(visited@[i].state == state);
        }
        law_reach_is_closed(chosen, back);
    }
    let mut next: usize = 0;
    while next < visited.len()
        invariant
            groups.wf(),
            places.wf(),
            chosen.finite(),
            edge_set.finite(),
            rounds == chosen.len() + edge_set.len(),
            back == backwards(edge_set),
            forall|state: GraphState| #[trigger]
                group_at(groups.deep_view(), state) == edge_set.filter(
                    |edge: ReferenceEdge| edge.to == state,
                ),
            next <= visited@.len(),
            visited@.len() <= rounds,
            search_order(chosen, edge_set, visited@),
            forall|i: int|
                0 <= i < visited@.len() ==> places.deep_view().contains_key(
                    (#[trigger] visited@[i]).state,
                ) && places.deep_view()[visited@[i].state] == i,
            forall|state: GraphState| #[trigger]
                places.deep_view().contains_key(state) ==> visits(visited@, state),
            consumers(chosen, edge_set) == search(
                edge_set,
                visited@,
                next as nat,
                (rounds - next) as nat,
            ),
            chosen.subset_of(reach(chosen, back)),
            forall|a: GraphState, b: GraphState|
                reach(chosen, back).contains(a) && #[trigger] back.contains((a, b)) ==> reach(
                    chosen,
                    back,
                ).contains(b),
            forall|i: int|
                0 <= i < visited@.len() ==> reach(chosen, back).contains(
                    (#[trigger] visited@[i]).state,
                ),
            forall|i: int, edge: ReferenceEdge|
                0 <= i < next && #[trigger] edge_set.contains(edge) && edge.to == (
                #[trigger] visited@[i]).state ==> visits(visited@, edge.from),
        decreases rounds - next,
    {
        let target: GraphState = visited[next].state;
        let ghost before = visited@;
        let ghost wanted = edge_set.filter(|edge: ReferenceEdge| edge.to == target);
        let ghost queue = incoming(edge_set, target);
        proof {
            assert(group_at(groups.deep_view(), target) == wanted);
            assert(expanded(before, queue.take(0)) == before) by {
                assert(queue.take(0).len() == 0);
            }
        }
        match groups.get(&target) {
            None => {
                proof {
                    assert(wanted == Set::<ReferenceEdge>::empty());
                    let none = Seq::<ReferenceEdge>::empty();
                    assert(none.to_set() =~= wanted);
                    lemma_ascending::<ReferenceEdge>(none);
                    assert(queue == none);
                    assert(expanded(before, queue) == before);
                }
            },
            Some(group) => {
                let mut at: usize = 0;
                proof {
                    group.lemma_seq();
                    assert(queue == group.seq());
                }
                while at < group.len()
                    invariant
                        group.wf(),
                        places.wf(),
                        chosen.finite(),
                        edge_set.finite(),
                        rounds == chosen.len() + edge_set.len(),
                        back == backwards(edge_set),
                        queue == group.seq(),
                        wanted == group.deep_view(),
                        wanted == edge_set.filter(|edge: ReferenceEdge| edge.to == target),
                        at <= queue.len(),
                        next < before.len() <= visited@.len(),
                        visited@[next as int].state == target,
                        visited@.take(before.len() as int) == before,
                        visited@ == expanded(before, queue.take(at as int)),
                        visited@.len() <= rounds,
                        search_order(chosen, edge_set, visited@),
                        forall|i: int|
                            0 <= i < visited@.len() ==> places.deep_view().contains_key(
                                (#[trigger] visited@[i]).state,
                            ) && places.deep_view()[visited@[i].state] == i,
                        forall|state: GraphState| #[trigger]
                            places.deep_view().contains_key(state) ==> visits(visited@, state),
                        forall|a: GraphState, b: GraphState|
                            reach(chosen, back).contains(a) && #[trigger] back.contains((a, b))
                                ==> reach(chosen, back).contains(b),
                        forall|i: int|
                            0 <= i < visited@.len() ==> reach(chosen, back).contains(
                                (#[trigger] visited@[i]).state,
                            ),
                        forall|i: int| 0 <= i < at ==> visits(visited@, (#[trigger] queue[i]).from),
                    decreases queue.len() - at,
                {
                    let edge: ReferenceEdge = *group.get(at);
                    let ghost held = visited@;
                    proof {
                        assert(queue.take(at + 1).drop_last() =~= queue.take(at as int));
                        assert(queue.take(at + 1).last() == edge);
                        assert(queue.contains(edge));
                        assert(wanted.contains(edge));
                        assert(edge_set.contains(edge));
                        assert(edge.to == target);
                        if visits(held, edge.from) {
                            let i = choose|i: int|
                                0 <= i < held.len() && (#[trigger] held[i]).state == edge.from;
                            assert(places.deep_view().contains_key(held[i].state));
                        }
                        assert(back.contains((edge.to, edge.from)));
                        lemma_visits_push(held, Visit { state: edge.from, edge: Some(edge) });
                    }
                    if !places.contains_key(&edge.from) {
                        let place: usize = visited.len();
                        visited.push(Visit { state: edge.from, edge: Some(edge) });
                        places.insert(edge.from, place);
                        proof {
                            assert(visited@ == held.push(Visit { state: edge.from, edge: Some(edge) }));
                            assert(!visits(held, edge.from));
                            assert(visited@.take(before.len() as int) =~= before);
                            assert forall|i: int| 0 <= i < visited@.len() implies match (
                            #[trigger] visited@[i]).edge {
                                None => chosen.contains(visited@[i].state),
                                Some(e) => {
                                    &&& !chosen.contains(visited@[i].state)
                                    &&& edge_set.contains(e)
                                    &&& e.from == visited@[i].state
                                    &&& exists|j: int|
                                        0 <= j < i && (#[trigger] visited@[j]).state == e.to
                                },
                            } by {
                                if i < held.len() {
                                    assert(visited@[i] == held[i]);
                                    if let Some(e) = held[i].edge {
                                        let j = choose|j: int|
                                            0 <= j < i && (#[trigger] held[j]).state == e.to;
                                        assert(visited@[j].state == e.to);
                                    }
                                } else {
                                    assert(visited@[next as int].state == edge.to);
                                    if chosen.contains(edge.from) {
                                        assert(visits(held, edge.from));
                                    }
                                }
                            }
                            assert forall|i: int, j: int|
                                0 <= i < visited@.len() && 0 <= j < visited@.len() && i
                                    != j implies (#[trigger] visited@[i]).state != (
                            #[trigger] visited@[j]).state by {
                                if i < held.len() && j < held.len() {
                                    assert(visited@[i] == held[i] && visited@[j] == held[j]);
                                } else if i < held.len() {
                                    assert(held[i].state == visited@[i].state);
                                } else {
                                    assert(held[j].state == visited@[j].state);
                                }
                            }
                            lemma_search_size(chosen, edge_set, visited@);
                            assert forall|i: int| 0 <= i < visited@.len() implies reach(
                                chosen,
                                back,
                            ).contains((#[trigger] visited@[i]).state) by {
                                if i < held.len() {
                                    assert(visited@[i] == held[i]);
                                } else {
                                    assert(reach(chosen, back).contains(
                                        visited@[next as int].state,
                                    ));
                                }
                            }
                            assert forall|i: int|
                                0 <= i < visited@.len() implies places.deep_view().contains_key(
                                (#[trigger] visited@[i]).state,
                            ) && places.deep_view()[visited@[i].state] == i by {
                                if i < held.len() {
                                    assert(visited@[i] == held[i]);
                                    assert(held[i].state != edge.from);
                                }
                            }
                        }
                    }
                    at = at + 1;
                }
                proof {
                    assert(queue.take(queue.len() as int) =~= queue);
                }
            },
        }
        proof {
            assert(visited@ == expanded(before, queue));
            assert forall|i: int, edge: ReferenceEdge|
                0 <= i < next + 1 && #[trigger] edge_set.contains(edge) && edge.to == (
                #[trigger] visited@[i]).state implies visits(visited@, edge.from) by {
                assert(visited@[i] == visited@.take(before.len() as int)[i]);
                assert(visited@[i] == before[i]);
                if i < next {
                    assert(visits(before, edge.from));
                    let k = choose|k: int|
                        0 <= k < before.len() && (#[trigger] before[k]).state == edge.from;
                    assert(visited@.take(before.len() as int)[k] == before[k]);
                    assert(visited@[k].state == edge.from);
                } else {
                    assert(wanted.contains(edge));
                    lemma_incoming(edge_set, target);
                    assert(queue.contains(edge));
                    let k = choose|k: int| 0 <= k < queue.len() && queue[k] == edge;
                    assert(visits(visited@, queue[k].from));
                }
            }
        }
        next = next + 1;
    }
    proof {
        let found = Set::<GraphState>::new(|state: GraphState| visits(visited@, state));
        assert forall|a: GraphState, b: GraphState|
            found.contains(a) && #[trigger] back.contains((a, b)) implies found.contains(b) by {
            let i = choose|i: int| 0 <= i < visited@.len() && (#[trigger] visited@[i]).state == a;
            let edge = choose|edge: ReferenceEdge| #[trigger]
                edge_set.contains(edge) && (edge.to, edge.from) == (a, b);
            assert(edge_set.contains(edge) && edge.to == visited@[i].state);
        }
        law_reach_is_least(chosen, back, found);
        assert forall|state: GraphState| #[trigger]
            visits(visited@, state) == reach(chosen, back).contains(state) by {
            if visits(visited@, state) {
                let i = choose|i: int|
                    0 <= i < visited@.len() && (#[trigger] visited@[i]).state == state;
            }
            if reach(chosen, back).contains(state) {
                assert(found.contains(state));
            }
        }
    }
    Consumers { visited, places }
}

/// The edges that lead to a state are listed in full.
proof fn lemma_incoming(edges: Set<ReferenceEdge>, state: GraphState)
    requires
        edges.finite(),
    ensures
        incoming(edges, state).to_set() == edges.filter(|edge: ReferenceEdge| edge.to == state),
{
    let wanted = edges.filter(|edge: ReferenceEdge| edge.to == state);
    edges.lemma_len_filter(|edge: ReferenceEdge| edge.to == state);
    crate::collections::lemma_ascending_exists::<ReferenceEdge>(wanted);
}

/// The place of a state among the visits.
pub open spec fn place_in(visited: Seq<Visit>, state: GraphState) -> int {
    choose|i: int| 0 <= i < visited.len() && (#[trigger] visited[i]).state == state
}

/// A state that is visited once is found at its place.
pub proof fn lemma_place_in(visited: Seq<Visit>, index: int)
    requires
        0 <= index < visited.len(),
        forall|i: int, j: int|
            0 <= i < visited.len() && 0 <= j < visited.len() && i != j ==> (
            #[trigger] visited[i]).state != (#[trigger] visited[j]).state,
    ensures
        place_in(visited, visited[index].state) == index,
{
    let place = place_in(visited, visited[index].state);
    assert(0 <= index < visited.len() && visited[index].state == visited[index].state);
    assert(visited[place].state == visited[index].state);
}

/// How many edges lead from a visited state to a selected one.
pub open spec fn distance(visited: Seq<Visit>, index: int) -> nat
    decreases index,
{
    match visited[index].edge {
        None => 0,
        Some(edge) => {
            let next = place_in(visited, edge.to);
            if 0 <= next < index {
                distance(visited, next) + 1
            } else {
                0
            }
        },
    }
}

/// Whether a state was reached within some distance.
spec fn within(visited: Seq<Visit>, depths: Seq<int>, state: GraphState, most: int) -> bool {
    exists|i: int|
        0 <= i < visited.len() && (#[trigger] visited[i]).state == state && depths[i] <= most
}

/// Whether a visit is one edge farther than the one it was reached from.
spec fn stacked(visited: Seq<Visit>, depths: Seq<int>, index: int) -> bool {
    match visited[index].edge {
        None => depths[index] == 0,
        Some(edge) => exists|j: int|
            0 <= j < index && (#[trigger] visited[j]).state == edge.to && depths[index] == depths[j]
                + 1,
    }
}

/// Whether numbers are the distances of a search that has come to some place: they ascend, and
/// what is not looked at yet is at most one edge farther than what is.
spec fn layered(visited: Seq<Visit>, depths: Seq<int>, next: int) -> bool {
    &&& depths.len() == visited.len()
    &&& forall|i: int| 0 <= i < visited.len() ==> #[trigger] stacked(visited, depths, i)
    &&& forall|i: int, j: int|
        0 <= i <= j < visited.len() ==> #[trigger] depths[i] <= #[trigger] depths[j]
    &&& next < visited.len() ==> forall|j: int|
        0 <= j < visited.len() ==> #[trigger] depths[j] <= depths[next] + 1
}

/// Whether the starts of the edges to what was looked at are reached, one edge farther.
spec fn looked_at(
    edges: Set<ReferenceEdge>,
    visited: Seq<Visit>,
    depths: Seq<int>,
    next: int,
) -> bool {
    forall|i: int, edge: ReferenceEdge|
        0 <= i < next && #[trigger] edges.contains(edge) && edge.to == (#[trigger] visited[i]).state
            ==> within(visited, depths, edge.from, depths[i] + 1)
}

/// Whether one list starts with another one.
spec fn extends<A>(longer: Seq<A>, shorter: Seq<A>) -> bool {
    &&& longer.len() >= shorter.len()
    &&& forall|i: int| 0 <= i < shorter.len() ==> #[trigger] longer[i] == shorter[i]
}

/// What was reached within some distance stays so.
proof fn lemma_within_extends(
    visited: Seq<Visit>,
    depths: Seq<int>,
    longer: Seq<Visit>,
    deeper: Seq<int>,
    state: GraphState,
    most: int,
)
    requires
        within(visited, depths, state, most),
        visited.len() == depths.len(),
        extends(longer, visited),
        extends(deeper, depths),
    ensures
        within(longer, deeper, state, most),
{
    let i = choose|i: int|
        0 <= i < visited.len() && (#[trigger] visited[i]).state == state && depths[i] <= most;
    assert(longer[i] == visited[i]);
    assert(deeper[i] == depths[i]);
    assert(longer[i].state == state && deeper[i] <= most);
}

/// One visit more, reached from the one that is looked at.
proof fn lemma_layered_push(
    selected: Set<GraphState>,
    edges: Set<ReferenceEdge>,
    visited: Seq<Visit>,
    depths: Seq<int>,
    next: int,
    edge: ReferenceEdge,
)
    requires
        search_order(selected, edges, visited),
        layered(visited, depths, next),
        0 <= next < visited.len(),
        edges.contains(edge),
        edge.to == visited[next].state,
        !visits(visited, edge.from),
    ensures
        search_order(
            selected,
            edges,
            visited.push(Visit { state: edge.from, edge: Some(edge) }),
        ),
        layered(
            visited.push(Visit { state: edge.from, edge: Some(edge) }),
            depths.push(depths[next] + 1),
            next,
        ),
{
    let longer = visited.push(Visit { state: edge.from, edge: Some(edge) });
    let deeper = depths.push(depths[next] + 1);
    lemma_visits_push(visited, Visit { state: edge.from, edge: Some(edge) });
    assert forall|i: int| 0 <= i < longer.len() implies #[trigger] stacked(longer, deeper, i) by {
        if i < visited.len() {
            assert(stacked(visited, depths, i));
            assert(longer[i] == visited[i]);
            if let Some(e) = visited[i].edge {
                let j = choose|j: int|
                    0 <= j < i && (#[trigger] visited[j]).state == e.to && depths[i] == depths[j]
                        + 1;
                assert(longer[j].state == e.to && deeper[i] == deeper[j] + 1);
            }
        } else {
            assert(longer[next].state == edge.to && deeper[i] == deeper[next] + 1);
        }
    }
    assert forall|i: int, j: int| 0 <= i <= j < longer.len() implies #[trigger] deeper[i]
        <= #[trigger] deeper[j] by {
        if j < visited.len() {
            assert(depths[i] <= depths[j]);
        } else if i < visited.len() {
            assert(depths[i] <= depths[next] + 1);
        }
    }
    assert forall|j: int| 0 <= j < longer.len() implies #[trigger] deeper[j] <= deeper[next]
        + 1 by {
        if j < visited.len() {
            assert(depths[j] <= depths[next] + 1);
        }
    }
    assert forall|i: int, j: int|
        0 <= i < longer.len() && 0 <= j < longer.len() && i != j implies (#[trigger] longer[i]).state
        != (#[trigger] longer[j]).state by {
        if i < visited.len() && j < visited.len() {
            assert(longer[i] == visited[i] && longer[j] == visited[j]);
        } else if i < visited.len() {
            assert(visited[i].state == longer[i].state);
        } else {
            assert(visited[j].state == longer[j].state);
        }
    }
    assert forall|i: int| 0 <= i < longer.len() implies match (#[trigger] longer[i]).edge {
        None => selected.contains(longer[i].state),
        Some(e) => {
            &&& !selected.contains(longer[i].state)
            &&& edges.contains(e)
            &&& e.from == longer[i].state
            &&& exists|j: int| 0 <= j < i && (#[trigger] longer[j]).state == e.to
        },
    } by {
        if i < visited.len() {
            assert(longer[i] == visited[i]);
            if let Some(e) = visited[i].edge {
                let j = choose|j: int| 0 <= j < i && (#[trigger] visited[j]).state == e.to;
                assert(longer[j].state == e.to);
            }
        } else {
            assert(longer[next].state == edge.to);
            if selected.contains(edge.from) {
                assert(visits(visited, edge.from));
            }
        }
    }
}

/// After some edges to a visit are looked at, their starts are reached, one edge farther.
proof fn lemma_layered_expanded(
    selected: Set<GraphState>,
    edges: Set<ReferenceEdge>,
    visited: Seq<Visit>,
    depths: Seq<int>,
    next: int,
    list: Seq<ReferenceEdge>,
) -> (deeper: Seq<int>)
    requires
        search_order(selected, edges, visited),
        layered(visited, depths, next),
        0 <= next < visited.len(),
        forall|i: int|
            0 <= i < list.len() ==> edges.contains(#[trigger] list[i]) && list[i].to
                == visited[next].state,
    ensures
        search_order(selected, edges, expanded(visited, list)),
        layered(expanded(visited, list), deeper, next),
        extends(expanded(visited, list), visited),
        extends(deeper, depths),
        forall|i: int|
            0 <= i < list.len() ==> within(
                expanded(visited, list),
                deeper,
                (#[trigger] list[i]).from,
                depths[next] + 1,
            ),
    decreases list.len(),
{
    if list.len() == 0 {
        depths
    } else {
        let head = list.drop_last();
        let edge = list.last();
        assert forall|i: int| 0 <= i < head.len() implies edges.contains(#[trigger] head[i])
            && head[i].to == visited[next].state by {
            assert(head[i] == list[i]);
        }
        let earlier = expanded(visited, head);
        let held = lemma_layered_expanded(selected, edges, visited, depths, next, head);
        assert(earlier[next] == visited[next]);
        assert(held[next] == depths[next]);
        assert(edges.contains(list[list.len() - 1]));
        let result = if visits(earlier, edge.from) {
            held
        } else {
            lemma_layered_push(selected, edges, earlier, held, next, edge);
            held.push(held[next] + 1)
        };
        let later = expanded(visited, list);
        assert(extends(later, earlier));
        assert(extends(result, held));
        assert forall|i: int| 0 <= i < list.len() implies within(
            later,
            result,
            (#[trigger] list[i]).from,
            depths[next] + 1,
        ) by {
            if i < head.len() {
                assert(head[i] == list[i]);
                lemma_within_extends(
                    earlier,
                    held,
                    later,
                    result,
                    head[i].from,
                    depths[next] + 1,
                );
            } else if visits(earlier, edge.from) {
                let k = choose|k: int|
                    0 <= k < earlier.len() && (#[trigger] earlier[k]).state == edge.from;
                assert(held[k] <= held[next] + 1);
                assert(later[k].state == edge.from && result[k] <= depths[next] + 1);
            } else {
                let k = earlier.len() as int;
                assert(later[k].state == edge.from && result[k] <= depths[next] + 1);
            }
        }
        result
    }
}

/// A search ends with everything looked at.
proof fn lemma_layered_search(
    selected: Set<GraphState>,
    edges: Set<ReferenceEdge>,
    visited: Seq<Visit>,
    depths: Seq<int>,
    next: nat,
    rounds: nat,
) -> (deeper: Seq<int>)
    requires
        selected.finite(),
        edges.finite(),
        search_order(selected, edges, visited),
        layered(visited, depths, next as int),
        looked_at(edges, visited, depths, next as int),
        next <= visited.len(),
        next + rounds >= selected.len() + edges.len(),
    ensures
        search_order(selected, edges, search(edges, visited, next, rounds)),
        layered(
            search(edges, visited, next, rounds),
            deeper,
            search(edges, visited, next, rounds).len() as int,
        ),
        looked_at(
            edges,
            search(edges, visited, next, rounds),
            deeper,
            search(edges, visited, next, rounds).len() as int,
        ),
    decreases rounds,
{
    lemma_search_size(selected, edges, visited);
    if next >= visited.len() || rounds == 0 {
        depths
    } else {
        let target = visited[next as int].state;
        let list = incoming(edges, target);
        lemma_incoming(edges, target);
        assert forall|i: int| 0 <= i < list.len() implies edges.contains(#[trigger] list[i])
            && list[i].to == target by {
            assert(list.to_set().contains(list[i]));
        }
        let later = expanded(visited, list);
        let held = lemma_layered_expanded(selected, edges, visited, depths, next as int, list);
        assert(later[next as int] == visited[next as int]);
        assert(held[next as int] == depths[next as int]);
        assert forall|i: int, edge: ReferenceEdge|
            0 <= i < next + 1 && #[trigger] edges.contains(edge) && edge.to == (
            #[trigger] later[i]).state implies within(later, held, edge.from, held[i] + 1) by {
            assert(later[i] == visited[i]);
            assert(held[i] == depths[i]);
            if i < next {
                assert(edge.to == visited[i].state);
                assert(within(visited, depths, edge.from, depths[i] + 1));
                lemma_within_extends(visited, depths, later, held, edge.from, depths[i] + 1);
            } else {
                assert(list.to_set().contains(edge));
                let k = choose|k: int| 0 <= k < list.len() && list[k] == edge;
                assert(within(later, held, list[k].from, depths[next as int] + 1));
            }
        }
        if next + 1 < later.len() {
            assert(held[next as int] <= held[next as int + 1]);
            assert forall|j: int| 0 <= j < later.len() implies #[trigger] held[j] <= held[next as int
                + 1]
                + 1 by {
                assert(held[j] <= held[next as int] + 1);
            }
        }
        lemma_layered_search(selected, edges, later, held, next + 1, (rounds - 1) as nat)
    }
}

/// The distances are those along the edges by which states were reached.
proof fn lemma_distance(
    selected: Set<GraphState>,
    edges: Set<ReferenceEdge>,
    visited: Seq<Visit>,
    depths: Seq<int>,
    next: int,
    index: int,
)
    requires
        search_order(selected, edges, visited),
        layered(visited, depths, next),
        0 <= index < visited.len(),
    ensures
        distance(visited, index) == depths[index],
    decreases index,
{
    assert(stacked(visited, depths, index));
    if let Some(edge) = visited[index].edge {
        let j = choose|j: int|
            0 <= j < index && (#[trigger] visited[j]).state == edge.to && depths[index] == depths[j]
                + 1;
        lemma_place_in(visited, j);
        lemma_distance(selected, edges, visited, depths, next, j);
    }
}

/// No walk to a selected state is shorter than the way that a search has found.
pub proof fn law_searches_find_shortest_ways(
    selected: Set<GraphState>,
    edges: Set<ReferenceEdge>,
    walk: Seq<GraphState>,
)
    requires
        selected.finite(),
        edges.finite(),
        is_walk(backwards(edges), walk),
        selected.contains(walk[0]),
    ensures
        visits(consumers(selected, edges), walk.last()),
        distance(
            consumers(selected, edges),
            place_in(consumers(selected, edges), walk.last()),
        ) <= walk.len() - 1,
{
    let starts = search_starts(selected);
    let states = ascending::<GraphState>(selected);
    crate::collections::lemma_ascending_exists::<GraphState>(selected);
    lemma_ascending::<GraphState>(states);
    let none = Seq::new(starts.len(), |i: int| 0int);
    assert forall|i: int| 0 <= i < starts.len() implies #[trigger] stacked(starts, none, i) by {}
    assert forall|state: GraphState| #[trigger] selected.contains(state) implies visits(
        starts,
        state,
    ) by {
        assert(states.to_set().contains(state));
        let i = choose|i: int| 0 <= i < states.len() && states[i] == state;
        assert(starts[i].state == state);
    }
    assert forall|i: int| 0 <= i < starts.len() implies selected.contains(
        (#[trigger] starts[i]).state,
    ) by {
        assert(states.to_set().contains(states[i]));
    }
    assert(search_order(selected, edges, starts));
    let visited = consumers(selected, edges);
    let depths = lemma_layered_search(
        selected,
        edges,
        starts,
        none,
        0,
        selected.len() + edges.len(),
    );
    lemma_walk_within(selected, edges, visited, depths, walk);
    let i = choose|i: int|
        0 <= i < visited.len() && (#[trigger] visited[i]).state == walk.last() && depths[i]
            <= walk.len() - 1;
    lemma_place_in(visited, i);
    lemma_distance(selected, edges, visited, depths, visited.len() as int, i);
}

/// The end of a walk is reached within its length.
proof fn lemma_walk_within(
    selected: Set<GraphState>,
    edges: Set<ReferenceEdge>,
    visited: Seq<Visit>,
    depths: Seq<int>,
    walk: Seq<GraphState>,
)
    requires
        search_order(selected, edges, visited),
        layered(visited, depths, visited.len() as int),
        looked_at(edges, visited, depths, visited.len() as int),
        is_walk(backwards(edges), walk),
        selected.contains(walk[0]),
    ensures
        within(visited, depths, walk.last(), walk.len() - 1),
    decreases walk.len(),
{
    if walk.len() == 1 {
        assert(visits(visited, walk[0]));
        let i = choose|i: int| 0 <= i < visited.len() && (#[trigger] visited[i]).state == walk[0];
        assert(stacked(visited, depths, i));
        assert(visited[i].edge is None);
        assert(visited[i].state == walk.last() && depths[i] <= walk.len() - 1);
    } else {
        let shorter = walk.drop_last();
        assert forall|i: int| 0 <= i < shorter.len() - 1 implies #[trigger] steps(
            backwards(edges),
            shorter,
            i,
        ) by {
            assert(steps(backwards(edges), walk, i));
        }
        lemma_walk_within(selected, edges, visited, depths, shorter);
        let i = choose|i: int|
            0 <= i < visited.len() && (#[trigger] visited[i]).state == shorter.last() && depths[i]
                <= shorter.len() - 1;
        assert(steps(backwards(edges), walk, walk.len() - 2));
        let edge = choose|edge: ReferenceEdge| #[trigger]
            edges.contains(edge) && (edge.to, edge.from) == (
                walk[walk.len() - 2],
                walk[walk.len() - 1],
            );
        assert(edges.contains(edge) && edge.to == visited[i].state);
        assert(within(visited, depths, edge.from, depths[i] + 1));
        let k = choose|k: int|
            0 <= k < visited.len() && (#[trigger] visited[k]).state == edge.from && depths[k]
                <= depths[i] + 1;
        assert(visited[k].state == walk.last() && depths[k] <= walk.len() - 1);
    }
}

} // verus!
