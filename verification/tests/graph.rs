use rot::collections::SortedSet;
use rot::compiler::consumers::reverse_reachable;
use rot::compiler::graph_keys::{GraphState, ReferenceEdge};
use rot::compiler::reach::reachable;
use rot::protocol::ReferenceKind;

fn state(node: usize) -> GraphState {
    GraphState { invocation: 0, node }
}

fn edges(pairs: &[(usize, usize)]) -> SortedSet<ReferenceEdge> {
    let mut set = SortedSet::new();
    for (reference, (from, to)) in pairs.iter().enumerate() {
        set.insert(ReferenceEdge {
            from: state(*from),
            to: state(*to),
            kind: ReferenceKind::Body,
            invocation: 0,
            reference,
        });
    }
    set
}

fn states(nodes: &[usize]) -> SortedSet<GraphState> {
    let mut set = SortedSet::new();
    for node in nodes {
        set.insert(state(*node));
    }
    set
}

#[test]
fn searches_find_the_shortest_ways() {
    // One way of three edges and one of two lead from 5 to 1; 6 leads nowhere near it.
    let graph = edges(&[(5, 4), (4, 2), (2, 1), (5, 3), (3, 1), (1, 5), (6, 7)]);
    let found = reverse_reachable(&states(&[1]), &graph);
    let place = |node: usize| {
        found.visited.iter().position(|visit| visit.state == state(node)).unwrap()
    };
    let distance = |node: usize| {
        let mut current = place(node);
        let mut steps = 0;
        while let Some(edge) = found.visited[current].edge {
            current = place(edge.to.node);
            steps += 1;
        }
        steps
    };
    assert_eq!(distance(1), 0);
    assert_eq!(distance(2), 1);
    assert_eq!(distance(3), 1);
    assert_eq!(distance(4), 2);
    assert_eq!(distance(5), 2);
    assert!(!found.contains(&state(6)));
    assert!(!found.contains(&state(7)));
}

#[test]
fn what_is_reached_is_closed_and_least() {
    let mut graph: SortedSet<(u64, u64)> = SortedSet::new();
    for edge in [(1, 2), (2, 3), (3, 1), (4, 5)] {
        graph.insert(edge);
    }
    let mut roots: SortedSet<u64> = SortedSet::new();
    roots.insert(2);
    assert_eq!(reachable(&roots, &graph).into_vec(), [1, 2, 3]);
    let none: SortedSet<u64> = SortedSet::new();
    assert_eq!(reachable(&none, &graph).len(), 0);
    roots.insert(4);
    assert_eq!(reachable(&roots, &graph).into_vec(), [1, 2, 3, 4, 5]);
}
