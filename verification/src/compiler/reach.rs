//! Reachability in a directed graph.

use vstd::prelude::*;

use crate::collections::{
    group_at, grouped, lemma_grouped_ends, lemma_grouped_step, Groups, SortedSet,
};
use crate::order::Ordered;

verus! {

/// Whether an edge leads from a state of a walk to the next one.
pub open spec fn steps<S>(edges: Set<(S, S)>, walk: Seq<S>, index: int) -> bool {
    edges.contains((walk[index], walk[index + 1]))
}

/// Whether a sequence of states follows edges from each state to the next one.
pub open spec fn is_walk<S>(edges: Set<(S, S)>, walk: Seq<S>) -> bool {
    &&& walk.len() > 0
    &&& forall|i: int| 0 <= i < walk.len() - 1 ==> #[trigger] steps(edges, walk, i)
}

/// Whether a walk leads from a root to a state.
pub open spec fn reached_from<S>(roots: Set<S>, edges: Set<(S, S)>, state: S) -> bool {
    exists|walk: Seq<S>| #[trigger] is_walk(edges, walk) && roots.contains(walk[0]) && walk.last()
        == state
}

/// All states to which a walk leads from a root.
pub open spec fn reach<S>(roots: Set<S>, edges: Set<(S, S)>) -> Set<S> {
    Set::new(|state: S| reached_from(roots, edges, state))
}

/// Every root is reached, and every edge leads from a reached state to a reached one.
pub proof fn law_reach_is_closed<S>(roots: Set<S>, edges: Set<(S, S)>)
    ensures
        roots.subset_of(reach(roots, edges)),
        forall|a: S, b: S|
            reach(roots, edges).contains(a) && #[trigger] edges.contains((a, b)) ==> reach(
                roots,
                edges,
            ).contains(b),
{
    assert forall|a: S| roots.contains(a) implies reach(roots, edges).contains(a) by {
        let walk = seq![a];
        assert(is_walk(edges, walk));
        assert(walk.last() == a);
    }
    assert forall|a: S, b: S|
        reach(roots, edges).contains(a) && #[trigger] edges.contains((a, b)) implies reach(
        roots,
        edges,
    ).contains(b) by {
        let walk = choose|walk: Seq<S>| #[trigger]
            is_walk(edges, walk) && roots.contains(walk[0]) && walk.last() == a;
        let longer = walk.push(b);
        assert forall|i: int| 0 <= i < longer.len() - 1 implies #[trigger] steps(
            edges,
            longer,
            i,
        ) by {
            if i < walk.len() - 1 {
                assert(steps(edges, walk, i));
            }
        }
        assert(is_walk(edges, longer));
        assert(longer.last() == b);
    }
}

/// The reached states are within every set that holds the roots and is closed under the edges.
pub proof fn law_reach_is_least<S>(roots: Set<S>, edges: Set<(S, S)>, closed: Set<S>)
    requires
        roots.subset_of(closed),
        forall|a: S, b: S|
            closed.contains(a) && #[trigger] edges.contains((a, b)) ==> closed.contains(b),
    ensures
        reach(roots, edges).subset_of(closed),
{
    assert forall|s: S| reach(roots, edges).contains(s) implies closed.contains(s) by {
        let walk = choose|walk: Seq<S>| #[trigger]
            is_walk(edges, walk) && roots.contains(walk[0]) && walk.last() == s;
        lemma_walk_stays(edges, closed, walk, walk.len() - 1);
    }
}

proof fn lemma_walk_stays<S>(edges: Set<(S, S)>, closed: Set<S>, walk: Seq<S>, index: int)
    requires
        is_walk(edges, walk),
        closed.contains(walk[0]),
        0 <= index < walk.len(),
        forall|a: S, b: S|
            closed.contains(a) && #[trigger] edges.contains((a, b)) ==> closed.contains(b),
    ensures
        closed.contains(walk[index]),
    decreases index,
{
    if index > 0 {
        lemma_walk_stays(edges, closed, walk, index - 1);
        assert(steps(edges, walk, index - 1));
        assert(edges.contains((walk[index - 1], walk[index])));
    }
}

/// More roots and more edges reach more states.
pub proof fn law_reach_is_monotone<S>(
    roots: Set<S>,
    edges: Set<(S, S)>,
    more_roots: Set<S>,
    more_edges: Set<(S, S)>,
)
    requires
        roots.subset_of(more_roots),
        edges.subset_of(more_edges),
    ensures
        reach(roots, edges).subset_of(reach(more_roots, more_edges)),
{
    law_reach_is_closed(more_roots, more_edges);
    law_reach_is_least(roots, edges, reach(more_roots, more_edges));
}

/// The edges of a graph by the states that they start from.
pub fn adjacency<T: Ordered + Copy>(edges: &SortedSet<(T, T)>) -> (groups: Groups<T, T>)
    requires
        edges.wf(),
    ensures
        groups.wf(),
        forall|a: <T as DeepView>::V, b: <T as DeepView>::V|
            edges.deep_view().contains((a, b)) == #[trigger] group_at(
                groups.deep_view(),
                a,
            ).contains(b),
{
    let ghost all = edges.seq();
    let ghost f = |edge: (<T as DeepView>::V, <T as DeepView>::V)| Some(edge);
    let mut groups: Groups<T, T> = Groups::new();
    let mut index: usize = 0;
    proof {
        lemma_grouped_ends(all, f);
        edges.lemma_seq();
    }
    while index < edges.len()
        invariant
            edges.wf(),
            all == edges.seq(),
            f == |edge: (<T as DeepView>::V, <T as DeepView>::V)| Some(edge),
            index <= all.len(),
            groups.wf(),
            groups.deep_view() == grouped(all.take(index as int), f),
        decreases all.len() - index,
    {
        let edge: (T, T) = *edges.get(index);
        proof {
            lemma_grouped_step(all, f, index as int);
        }
        groups.add(edge.0, edge.1);
        index = index + 1;
    }
    proof {
        lemma_grouped_ends(all, f);
        assert forall|a: <T as DeepView>::V, b: <T as DeepView>::V|
            edges.deep_view().contains((a, b)) == #[trigger] group_at(
                groups.deep_view(),
                a,
            ).contains(b) by {
            if edges.deep_view().contains((a, b)) {
                let i = choose|i: int| 0 <= i < all.len() && all[i] == (a, b);
                assert(f(all[i]) is Some && (f(all[i])->0).0 == a);
                assert(f(all[i]) == Some((a, b)));
            }
            if group_at(groups.deep_view(), a).contains(b) {
                let i = choose|i: int| 0 <= i < all.len() && f(#[trigger] all[i]) == Some((a, b));
                assert(all.contains((a, b)));
            }
        }
    }
    groups
}

/// All states that can be reached from the roots.
pub fn reachable<T: Ordered + Copy>(roots: &SortedSet<T>, edges: &SortedSet<(T, T)>) -> (found:
    SortedSet<T>)
    requires
        roots.wf(),
        edges.wf(),
    ensures
        found.wf(),
        found.deep_view() == reach(roots.deep_view(), edges.deep_view()),
{
    let groups = adjacency(edges);
    let ghost root_set = roots.deep_view();
    let ghost edge_set = edges.deep_view();
    let ghost ends = edge_set.map(|edge: (<T as DeepView>::V, <T as DeepView>::V)| edge.1);
    let ghost world = root_set.union(ends);
    let mut found: SortedSet<T> = SortedSet::new();
    let mut pending: Vec<T> = Vec::new();
    let mut index: usize = 0;
    proof {
        roots.lemma_seq();
        edges.lemma_seq();
        law_reach_is_closed(root_set, edge_set);
        edge_set.lemma_map_finite(|edge: (<T as DeepView>::V, <T as DeepView>::V)| edge.1);
        assert(world.finite());
        assert(pending.deep_view() =~= Seq::<<T as DeepView>::V>::empty());
    }
    while index < roots.len()
        invariant
            roots.wf(),
            found.wf(),
            root_set == roots.deep_view(),
            root_set.subset_of(world),
            index <= roots.seq().len(),
            found.deep_view().subset_of(root_set),
            forall|i: int| 0 <= i < index ==> found.deep_view().contains(#[trigger] roots.seq()[i]),
            forall|a: <T as DeepView>::V|
                found.deep_view().contains(a) ==> #[trigger] pending.deep_view().contains(a),
            forall|i: int|
                0 <= i < pending.deep_view().len() ==> found.deep_view().contains(
                    #[trigger] pending.deep_view()[i],
                ),
        decreases roots.seq().len() - index,
    {
        let root: T = *roots.get(index);
        let ghost before = pending.deep_view();
        let ghost had = found.deep_view();
        proof {
            assert(roots.seq().contains(root.deep_view()));
        }
        found.insert(root);
        crate::collections::push_item(&mut pending, root);
        proof {
            assert forall|a: <T as DeepView>::V| found.deep_view().contains(a) implies #[trigger]
                pending.deep_view().contains(a) by {
                if had.contains(a) {
                    assert(before.contains(a));
                    let i = choose|i: int| 0 <= i < before.len() && before[i] == a;
                    assert(pending.deep_view()[i] == a);
                } else {
                    assert(pending.deep_view()[before.len() as int] == a);
                }
            }
        }
        index = index + 1;
    }
    proof {
        assert(found.deep_view() =~= root_set) by {
            assert forall|a: <T as DeepView>::V| root_set.contains(a) implies found.deep_view().contains(
                a,
            ) by {
                let i = choose|i: int| 0 <= i < roots.seq().len() && roots.seq()[i] == a;
            }
        }
        vstd::set_lib::lemma_len_subset(found.deep_view(), world);
    }
    while pending.len() > 0
        invariant
            groups.wf(),
            found.wf(),
            world.finite(),
            world == root_set.union(ends),
            ends == edge_set.map(|edge: (<T as DeepView>::V, <T as DeepView>::V)| edge.1),
            forall|a: <T as DeepView>::V, b: <T as DeepView>::V|
                edge_set.contains((a, b)) == #[trigger] group_at(groups.deep_view(), a).contains(b),
            forall|a: <T as DeepView>::V, b: <T as DeepView>::V|
                reach(root_set, edge_set).contains(a) && #[trigger] edge_set.contains((a, b))
                    ==> reach(root_set, edge_set).contains(b),
            root_set.subset_of(found.deep_view()),
            found.deep_view().subset_of(world),
            found.deep_view().len() <= world.len(),
            found.deep_view().subset_of(reach(root_set, edge_set)),
            forall|i: int|
                0 <= i < pending.deep_view().len() ==> found.deep_view().contains(
                    #[trigger] pending.deep_view()[i],
                ),
            forall|a: <T as DeepView>::V, b: <T as DeepView>::V|
                found.deep_view().contains(a) && #[trigger] edge_set.contains((a, b))
                    && !pending.deep_view().contains(a) ==> found.deep_view().contains(b),
        decreases 2 * (world.len() - found.deep_view().len()) + pending.len(),
    {
        let ghost waiting = pending.deep_view();
        let ghost size_before = found.deep_view().len();
        let ghost count_before = pending.len();
        let state: T = pending.pop().unwrap();
        let ghost s = state.deep_view();
        proof {
            assert(waiting[waiting.len() - 1] == s);
            assert(pending.deep_view() =~= waiting.drop_last());
            assert forall|a: <T as DeepView>::V|
                waiting.contains(a) && a != s implies pending.deep_view().contains(a) by {
                let i = choose|i: int| 0 <= i < waiting.len() && waiting[i] == a;
                assert(pending.deep_view()[i] == a);
            }
        }
        match groups.get(&state) {
            None => {
                proof {
                    assert forall|b: <T as DeepView>::V| !#[trigger] edge_set.contains((s, b)) by {
                        assert(!group_at(groups.deep_view(), s).contains(b));
                    }
                }
            },
            Some(targets) => {
                let mut next: usize = 0;
                proof {
                    targets.lemma_seq();
                }
                while next < targets.len()
                    invariant
                        groups.wf(),
                        targets.wf(),
                        found.wf(),
                        world.finite(),
                        world == root_set.union(ends),
                        ends == edge_set.map(
                            |edge: (<T as DeepView>::V, <T as DeepView>::V)| edge.1,
                        ),
                        targets.deep_view() == group_at(groups.deep_view(), s),
                        forall|a: <T as DeepView>::V, b: <T as DeepView>::V|
                            edge_set.contains((a, b)) == #[trigger] group_at(
                                groups.deep_view(),
                                a,
                            ).contains(b),
                        forall|a: <T as DeepView>::V, b: <T as DeepView>::V|
                            reach(root_set, edge_set).contains(a) && #[trigger] edge_set.contains(
                                (a, b),
                            ) ==> reach(root_set, edge_set).contains(b),
                        reach(root_set, edge_set).contains(s),
                        next <= targets.seq().len(),
                        root_set.subset_of(found.deep_view()),
                        found.deep_view().contains(s),
                        found.deep_view().subset_of(world),
                        found.deep_view().len() <= world.len(),
                        found.deep_view().subset_of(reach(root_set, edge_set)),
                        forall|i: int|
                            0 <= i < next ==> found.deep_view().contains(
                                #[trigger] targets.seq()[i],
                            ),
                        forall|i: int|
                            0 <= i < pending.deep_view().len() ==> found.deep_view().contains(
                                #[trigger] pending.deep_view()[i],
                            ),
                        forall|a: <T as DeepView>::V, b: <T as DeepView>::V|
                            found.deep_view().contains(a) && #[trigger] edge_set.contains((a, b))
                                && !pending.deep_view().contains(a) && a != s
                                ==> found.deep_view().contains(b),
                        2 * (world.len() - found.deep_view().len()) + pending.len() < 2 * (
                        world.len() - size_before) + count_before,
                    decreases targets.seq().len() - next,
                {
                    let target: T = *targets.get(next);
                    let ghost t = target.deep_view();
                    let ghost had = found.deep_view();
                    let ghost queued = pending.deep_view();
                    proof {
                        assert(targets.seq().contains(t));
                        assert(group_at(groups.deep_view(), s).contains(t));
                        assert(edge_set.contains((s, t)));
                        assert(ends.contains(t)) by {
                            assert((s, t).1 == t);
                        }
                        found.lemma_seq();
                    }
                    if found.insert(target) {
                        crate::collections::push_item(&mut pending, target);
                        proof {
                            vstd::set_lib::lemma_len_subset(found.deep_view(), world);
                            assert(pending.deep_view()[queued.len() as int] == t);
                            assert forall|a: <T as DeepView>::V|
                                queued.contains(a) implies pending.deep_view().contains(a) by {
                                let i = choose|i: int| 0 <= i < queued.len() && queued[i] == a;
                                assert(pending.deep_view()[i] == a);
                            }
                        }
                    }
                    next = next + 1;
                }
                proof {
                    assert forall|b: <T as DeepView>::V| #[trigger]
                        edge_set.contains((s, b)) implies found.deep_view().contains(b) by {
                        assert(group_at(groups.deep_view(), s).contains(b));
                        let i = choose|i: int| 0 <= i < targets.seq().len() && targets.seq()[i] == b;
                    }
                }
            },
        }
    }
    proof {
        assert forall|a: <T as DeepView>::V, b: <T as DeepView>::V|
            found.deep_view().contains(a) && #[trigger] edge_set.contains(
                (a, b),
            ) implies found.deep_view().contains(b) by {
            assert(!pending.deep_view().contains(a));
        }
        law_reach_is_least(root_set, edge_set, found.deep_view());
        assert(found.deep_view() =~= reach(root_set, edge_set));
    }
    found
}

} // verus!
